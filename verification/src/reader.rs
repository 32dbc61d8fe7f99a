//! Reading the engine's state.

use crate::decimal::Decimal;
use crate::ledger_model::LedgerV;
use crate::node::OrderBookDepth;
use crate::trade_log::{candle_data, last_candle, CandleData, TraLog};
use std::collections::VecDeque;
use vstd::prelude::*;

verus! {

/// What contracts can read of the engine.
pub trait EngineReader {
    /// The ledger that is read.
    spec fn ledger(&self) -> LedgerV;

    /// The number of decimal places that volumes and prices are cut off at.
    fn precision(&self) -> (r: u8)
        ensures
            r == self.ledger().precision,
    ;

    /// The token that prices are given in where a pair has it.
    fn global_quote_token(&self) -> (r: usize)
        ensures
            r == self.ledger().quote,
    ;

    /// The name of a token.
    fn get_token_name(&self, id: usize) -> (r: Option<&str>)
        ensures
            r is Some == self.ledger().token_name(id) is Some,
            r is Some ==> (r->0)@ == self.ledger().token_name(id)->0,
    ;

    /// The token of a name.
    fn get_token_by_name(&self, name: &str) -> (r: Option<usize>)
        ensures
            r == self.ledger().token_by_name(name@),
    ;

    /// All tokens, in the order in which they were registered.
    fn get_all_tokens(&self) -> (r: Vec<usize>)
        ensures
            r@ == self.ledger().tokens.map_values(|t: (usize, Seq<char>)| t.0),
    ;

    /// All accounts, in the order in which they were registered.
    fn get_all_accounts(&self) -> (r: Vec<usize>)
        ensures
            r@ == self.ledger().accounts,
    ;

    /// The balance of a token that a node holds, zero where there is no such node.
    fn node_balance(&self, node_id: usize, token: usize) -> (r: Decimal)
        ensures
            r == self.ledger().balance(node_id, token),
    ;

    /// The price of a base token in a quote token, by a pair of either direction: `Some(None)`
    /// where there is none, `None` where it overflows.
    fn get_current_price(&self, quote_token: usize, base_token: usize) -> (r: Option<
        Option<Decimal>,
    >)
        ensures
            r == self.ledger().price_of(quote_token, base_token),
    ;

    /// The price between two tokens with the quote and the base token that it is for:
    /// `Some(None)` where there is none, `None` where it overflows.
    fn price_between(&self, src: usize, dst: usize) -> (r: Option<Option<(Decimal, usize, usize)>>)
        ensures
            r == self.ledger().price_between(src, dst),
    ;

    /// An amount of one token in another one, zero where there is no price. `None` where it
    /// overflows.
    fn convert_value(&self, src: usize, dst: usize, amount: Decimal) -> (r: Option<Decimal>)
        ensures
            r == self.ledger().converted(src, dst, amount),
    ;

    /// What an account holds of a token, in its own balance and in its open orders; zero for any
    /// other node. `None` where it overflows.
    fn account_equity_token(&self, account_id: usize, token: usize) -> (r: Option<Decimal>)
        ensures
            r == self.ledger().equity_or_zero(account_id, token),
    ;

    /// How much of a token was issued, zero where there is no such token.
    fn token_total_supply(&self, token: usize) -> (r: Decimal)
        ensures
            r == self.ledger().total_supply(token),
    ;

    /// Whether balances of a token may fall below zero.
    fn token_can_be_negative(&self, token: usize) -> (r: bool)
        ensures
            r == self.ledger().can_be_negative(token),
    ;

    /// The price levels of the buy and of the sell side of a pair at a depth; none where there is
    /// no such pair, `None` where a volume overflows.
    fn get_order_book(&self, quote_token: usize, base_token: usize, depth: usize) -> (r: Option<
        Vec<OrderBookDepth>,
    >)
        ensures
            r is Some == self.ledger().depths(quote_token, base_token, depth) is Some,
            r is Some ==> (r->0)@ == self.ledger().depths(quote_token, base_token, depth)->0,
    ;

    /// The trades of a pair; none where there is no such pair.
    fn get_tra_logs(&self, quote_token: usize, base_token: usize) -> (r: VecDeque<TraLog>)
        ensures
            r@ == self.ledger().logs(quote_token, base_token),
    ;

    /// The candles of a pair; none where there is no such pair, `None` where a volume overflows.
    fn get_candle_data(&self, quote_token: usize, base_token: usize, interval: u64) -> (r: Option<
        VecDeque<CandleData>,
    >)
        ensures
            r is Some == candle_data(
                self.ledger().logs(quote_token, base_token),
                interval,
            ) is Some,
            r is Some ==> (r->0)@ == candle_data(
                self.ledger().logs(quote_token, base_token),
                interval,
            )->0,
    ;

    /// The candle of the interval that the last trade of a pair lies in; `Some(None)` where there
    /// is none, `None` where its volume overflows.
    fn latest_candle(&self, quote_token: usize, base_token: usize, interval: u64) -> (r: Option<
        Option<CandleData>,
    >)
        ensures
            r == last_candle(self.ledger().logs(quote_token, base_token), interval),
    ;
}

} // verus!
