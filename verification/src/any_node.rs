//! A node of any kind.

use crate::account::Account;
use crate::contract::Contract;
use crate::decimal::Decimal;
use crate::fee::FeeFn;
use crate::matching::PairV;
use crate::node::{Drt, Node, NodeCore, NodeV, OrderBookDepth, SwapTransfer};
use crate::order::{Order, OrderBrief};
use crate::pair::Pair;
use crate::pair_node::{level_at, PairNode};
use crate::token::Token;
use crate::trade_log::{candle_data, last_candle, CandleData, TraLog};
use crate::virtual_pair::VirtualPair;
use std::collections::VecDeque;
use vstd::prelude::*;

verus! {

broadcast use {
    Account::lemma_kind,
    Contract::lemma_kind,
    Order::lemma_kind,
    Pair::lemma_kind,
    Token::lemma_kind,
    VirtualPair::lemma_kind,
};

/// A node of any kind.
pub enum AnyNode {
    Token(Token),
    Account(Account),
    Order(Order),
    Pair(Pair),
    Virtual(VirtualPair),
    Contract(Contract),
}

impl View for AnyNode {
    type V = NodeV;

    open spec fn view(&self) -> NodeV {
        match *self {
            AnyNode::Token(n) => n@,
            AnyNode::Account(n) => n@,
            AnyNode::Order(n) => n@,
            AnyNode::Pair(n) => n@,
            AnyNode::Virtual(n) => n@,
            AnyNode::Contract(n) => n@,
        }
    }
}

impl Node for AnyNode {
    fn base(&self) -> (r: &NodeCore) {
        match self {
            AnyNode::Token(n) => n.base(),
            AnyNode::Account(n) => n.base(),
            AnyNode::Order(n) => n.base(),
            AnyNode::Pair(n) => n.base(),
            AnyNode::Virtual(n) => n.base(),
            AnyNode::Contract(n) => n.base(),
        }
    }

    fn base_mut(&mut self) -> (r: &mut NodeCore) {
        match self {
            AnyNode::Token(n) => n.base_mut(),
            AnyNode::Account(n) => n.base_mut(),
            AnyNode::Order(n) => n.base_mut(),
            AnyNode::Pair(n) => n.base_mut(),
            AnyNode::Virtual(n) => n.base_mut(),
            AnyNode::Contract(n) => n.base_mut(),
        }
    }

    fn update(&mut self, step_count: u64) {
        match self {
            AnyNode::Token(n) => n.update(step_count),
            AnyNode::Account(n) => n.update(step_count),
            AnyNode::Order(n) => n.update(step_count),
            AnyNode::Pair(n) => n.update(step_count),
            AnyNode::Virtual(n) => n.update(step_count),
            AnyNode::Contract(n) => n.update(step_count),
        }
    }

    fn is_open(&self) -> (r: bool) {
        match self {
            AnyNode::Token(n) => n.is_open(),
            AnyNode::Account(n) => n.is_open(),
            AnyNode::Order(n) => n.is_open(),
            AnyNode::Pair(n) => n.is_open(),
            AnyNode::Virtual(n) => n.is_open(),
            AnyNode::Contract(n) => n.is_open(),
        }
    }
}

impl AnyNode {
    /// The token that the node is.
    pub fn as_token_node(&mut self) -> (r: Option<&mut Token>)
        ensures
            r is Some == old(self)@.kind is Token,
            r matches Some(n) ==> n@ == old(self)@ && final(self)@ == final(n)@,
            r is None ==> final(self)@ == old(self)@,
    {
        match self {
            AnyNode::Token(n) => Some(n),
            _ => None,
        }
    }

    /// The token that the node is.
    pub fn as_token_node_ref(&self) -> (r: Option<&Token>)
        ensures
            r is Some == self@.kind is Token,
            r matches Some(n) ==> n@ == self@,
    {
        match self {
            AnyNode::Token(n) => Some(n),
            _ => None,
        }
    }

    /// The account that the node is.
    pub fn as_account_node(&mut self) -> (r: Option<&mut Account>)
        ensures
            r is Some == old(self)@.kind is Account,
            r matches Some(n) ==> n@ == old(self)@ && final(self)@ == final(n)@,
            r is None ==> final(self)@ == old(self)@,
    {
        match self {
            AnyNode::Account(n) => Some(n),
            _ => None,
        }
    }

    /// The account that the node is.
    pub fn as_account_node_ref(&self) -> (r: Option<&Account>)
        ensures
            r is Some == self@.kind is Account,
            r matches Some(n) ==> n@ == self@,
    {
        match self {
            AnyNode::Account(n) => Some(n),
            _ => None,
        }
    }

    /// The order that the node is.
    pub fn as_order_node(&mut self) -> (r: Option<&mut Order>)
        ensures
            r is Some == old(self)@.kind is Order,
            r matches Some(n) ==> n@ == old(self)@ && final(self)@ == final(n)@,
            r is None ==> final(self)@ == old(self)@,
    {
        match self {
            AnyNode::Order(n) => Some(n),
            _ => None,
        }
    }

    /// The order that the node is.
    pub fn as_order_node_ref(&self) -> (r: Option<&Order>)
        ensures
            r is Some == self@.kind is Order,
            r matches Some(n) ==> n@ == self@,
    {
        match self {
            AnyNode::Order(n) => Some(n),
            _ => None,
        }
    }

    /// The contract that the node is.
    pub fn as_contract_node(&mut self) -> (r: Option<&mut Contract>)
        ensures
            r is Some == old(self)@.kind is Contract,
            r matches Some(n) ==> n@ == old(self)@ && final(self)@ == final(n)@,
            r is None ==> final(self)@ == old(self)@,
    {
        match self {
            AnyNode::Contract(n) => Some(n),
            _ => None,
        }
    }

    /// Whether the node is a pair of either kind.
    pub fn is_pair(&self) -> (r: bool)
        ensures
            r == self@.is_pair(),
    {
        match self {
            AnyNode::Pair(_) => true,
            AnyNode::Virtual(_) => true,
            _ => false,
        }
    }

    /// The quote token, the base token and the price of the pair that the node is.
    pub fn pair_info(&self) -> (r: Option<(usize, usize, Decimal)>)
        ensures
            r is Some == self@.is_pair(),
            r is Some ==> r->0 == (
                self@.pair().quote_token,
                self@.pair().base_token,
                self@.pair().price,
            ),
    {
        match self {
            AnyNode::Pair(n) => Some(
                (n.get_quote_token(), n.get_base_token(), n.get_current_price()),
            ),
            AnyNode::Virtual(n) => Some(
                (n.get_quote_token(), n.get_base_token(), n.get_current_price()),
            ),
            _ => None,
        }
    }

    /// See [`PairNode::get_order_book`].
    pub fn get_order_book(&self, direction: Drt, depth: usize) -> (r: Option<OrderBookDepth>)
        requires
            self@.is_pair(),
        ensures
            r == level_at(self@.pair().book.queue(direction), depth),
    {
        match self {
            AnyNode::Pair(n) => n.get_order_book(direction, depth),
            AnyNode::Virtual(n) => n.get_order_book(direction, depth),
            _ => None,
        }
    }

    /// See [`PairNode::get_tra_logs`].
    pub fn get_tra_logs(&self) -> (r: VecDeque<TraLog>)
        requires
            self@.is_pair(),
        ensures
            r@ == self@.pair().logs,
    {
        match self {
            AnyNode::Pair(n) => n.get_tra_logs(),
            AnyNode::Virtual(n) => n.get_tra_logs(),
            _ => VecDeque::new(),
        }
    }

    /// See [`PairNode::get_candle_data`].
    pub fn get_candle_data(&self, interval: u64) -> (r: Option<VecDeque<CandleData>>)
        requires
            self@.is_pair(),
        ensures
            r is Some == candle_data(self@.pair().logs, interval) is Some,
            r is Some ==> r->0@ == candle_data(self@.pair().logs, interval)->0,
    {
        match self {
            AnyNode::Pair(n) => n.get_candle_data(interval),
            AnyNode::Virtual(n) => n.get_candle_data(interval),
            _ => None,
        }
    }

    /// See [`PairNode::latest_candle`].
    pub fn latest_candle(&self, interval: u64) -> (r: Option<Option<CandleData>>)
        requires
            self@.is_pair(),
        ensures
            r == last_candle(self@.pair().logs, interval),
    {
        match self {
            AnyNode::Pair(n) => n.latest_candle(interval),
            AnyNode::Virtual(n) => n.latest_candle(interval),
            _ => None,
        }
    }

    /// Sets the price of the virtual pair that the node is.
    pub fn set_current_price(&mut self, price: Decimal)
        ensures
            final(self)@ == old(self)@.priced(price),
    {
        match self {
            AnyNode::Virtual(n) => n.set_current_price(price),
            _ => {},
        }
    }

    /// Sets or drops the fee of the pair that the node is.
    pub fn set_fee_fn(&mut self, fee_fn: Option<FeeFn>)
        requires
            old(self)@.is_pair(),
        ensures
            final(self)@ == old(self)@.with_pair(PairV { fee: fee_fn, ..old(self)@.pair() }),
    {
        match self {
            AnyNode::Pair(n) => n.set_fee_fn(fee_fn),
            AnyNode::Virtual(n) => n.set_fee_fn(fee_fn),
            _ => {},
        }
    }

    /// See [`PairNode::update_brief`].
    pub fn update_brief(&mut self, brief: OrderBrief)
        requires
            old(self)@.is_pair(),
        ensures
            final(self)@ == old(self)@.brief_updated(brief),
    {
        match self {
            AnyNode::Pair(n) => n.update_brief(brief),
            AnyNode::Virtual(n) => n.update_brief(brief),
            _ => {},
        }
    }

    /// See [`PairNode::insert_brief`].
    pub fn insert_brief(&mut self, brief: OrderBrief, precision: u8) -> (r: Option<()>)
        requires
            old(self)@.is_pair(),
        ensures
            r is Some == old(self)@.brief_inserted(brief, precision) is Some,
            r is Some ==> final(self)@ == old(self)@.brief_inserted(brief, precision)->0,
    {
        match self {
            AnyNode::Pair(n) => n.insert_brief(brief, precision),
            AnyNode::Virtual(n) => n.insert_brief(brief, precision),
            _ => None,
        }
    }

    /// See [`PairNode::cancel_brief`].
    pub fn cancel_brief(&mut self, id: usize)
        requires
            old(self)@.is_pair(),
        ensures
            final(self)@ == old(self)@.brief_cancelled(id),
    {
        match self {
            AnyNode::Pair(n) => n.cancel_brief(id),
            AnyNode::Virtual(n) => n.cancel_brief(id),
            _ => {},
        }
    }

    /// See [`PairNode::process_swap`].
    pub fn process_swap(
        &mut self,
        owner_id: usize,
        direction: Drt,
        volume: Decimal,
        precision: u8,
    ) -> (r: Option<(Vec<SwapTransfer>, Vec<usize>)>)
        requires
            old(self)@.is_pair(),
        ensures
            r is Some == old(self)@.swap_processed(owner_id, direction, volume, precision) is Some,
            r is Some ==> (final(self)@, (r->0).0@, (r->0).1@) == old(self)@.swap_processed(
                owner_id,
                direction,
                volume,
                precision,
            )->0,
    {
        match self {
            AnyNode::Pair(n) => n.process_swap(owner_id, direction, volume, precision),
            AnyNode::Virtual(n) => n.process_swap(owner_id, direction, volume, precision),
            _ => None,
        }
    }

    /// See [`PairNode::process_swaps_batch`].
    pub fn process_swaps_batch(
        &mut self,
        direction: Drt,
        swaps: &Vec<(usize, Decimal)>,
        precision: u8,
    ) -> (r: Option<(Vec<SwapTransfer>, Vec<usize>)>)
        requires
            old(self)@.is_pair(),
        ensures
            r is Some == old(self)@.swaps_processed(direction, swaps@, precision) is Some,
            r is Some ==> (final(self)@, (r->0).0@, (r->0).1@) == old(self)@.swaps_processed(
                direction,
                swaps@,
                precision,
            )->0,
    {
        match self {
            AnyNode::Pair(n) => n.process_swaps_batch(direction, swaps, precision),
            AnyNode::Virtual(n) => n.process_swaps_batch(direction, swaps, precision),
            _ => None,
        }
    }
}

} // verus!
