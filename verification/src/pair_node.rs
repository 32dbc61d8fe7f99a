//! What the engine asks of a pair.

use crate::decimal::Decimal;
use crate::fee::FeeFn;
use crate::matching::{batched, matched, swapped, PairV, Trading};
use crate::node::{CoreV, Drt, KindV, Node, NodeV, OrderBookDepth, SwapTransfer};
use crate::order::OrderBrief;
use crate::order_book::{levels, OrderBook};
use crate::trade_log::{candle_data, last_candle, logged, CandleData, TraLog};
use crate::virtual_pair::{VirtualTrading, VirtualV};
use std::collections::VecDeque;
use vstd::prelude::*;

verus! {

/// The price level at a depth, zero where there are fewer levels. `None` where a sum overflows or
/// the depth is too large to be counted.
pub open spec fn level_at(q: Seq<OrderBrief>, depth: usize) -> Option<OrderBookDepth> {
    if depth == usize::MAX {
        None
    } else {
        match levels(q, 0, (depth + 1) as nat) {
            Some(l) => if depth < l.len() {
                Some(OrderBookDepth { price: l[depth as int].0, volume: l[depth as int].1 })
            } else {
                Some(OrderBookDepth { price: Decimal::of(0, 0), volume: Decimal::of(0, 0) })
            },
            None => None,
        }
    }
}

/// The price level of a book at a depth.
pub(crate) fn depth_at(book: &OrderBook, direction: Drt, depth: usize) -> (r: Option<OrderBookDepth>)
    ensures
        r == level_at(book@.queue(direction), depth),
{
    if depth == usize::MAX {
        return None;
    }
    let l = book.get_depth(direction, depth + 1)?;
    if depth < l.len() {
        let (price, volume) = l[depth];
        Some(OrderBookDepth { price, volume })
    } else {
        Some(OrderBookDepth { price: Decimal::zero(), volume: Decimal::zero() })
    }
}

impl NodeV {
    /// Whether the node is a pair of either kind.
    pub open spec fn is_pair(self) -> bool {
        self.kind is Pair || self.kind is Virtual
    }

    /// The pair that the node is.
    pub open spec fn pair(self) -> PairV {
        if self.kind is Virtual {
            self.kind->Virtual_0.pair
        } else {
            self.kind->Pair_0
        }
    }

    pub open spec fn with_pair(self, pair: PairV) -> NodeV {
        NodeV {
            kind: match self.kind {
                KindV::Virtual(v) => KindV::Virtual(VirtualV { pair, ..v }),
                _ => KindV::Pair(pair),
            },
            ..self
        }
    }

    /// The pair and its messages.
    pub open spec fn trading(self) -> Trading {
        Trading { pair: self.pair(), msgs: self.core.msgs }
    }

    pub open spec fn with_trading(self, t: Trading) -> NodeV {
        NodeV { core: CoreV { msgs: t.msgs, ..self.core }, kind: KindV::Pair(t.pair) }
    }

    /// The virtual pair and its messages.
    pub open spec fn virtual_trading(self) -> VirtualTrading {
        VirtualTrading { v: self.kind->Virtual_0, msgs: self.core.msgs }
    }

    pub open spec fn with_virtual(self, t: VirtualTrading) -> NodeV {
        NodeV { core: CoreV { msgs: t.msgs, ..self.core }, kind: KindV::Virtual(t.v) }
    }

    /// The pair with the price that a contract quotes; only a virtual pair takes it.
    pub open spec fn priced(self, price: Decimal) -> NodeV {
        match self.kind {
            KindV::Virtual(v) => NodeV {
                kind: KindV::Virtual(VirtualV { pair: PairV { price, ..v.pair }, ..v }),
                ..self
            },
            _ => self,
        }
    }

    /// The pair with what an order that it knows holds now.
    pub open spec fn brief_updated(self, b: OrderBrief) -> NodeV {
        self.with_pair(
            PairV {
                book: self.pair().book.with_volume(b.id, b.src_volume, b.dst_volume),
                ..self.pair()
            },
        )
    }

    /// The pair without an order.
    pub open spec fn brief_cancelled(self, id: usize) -> NodeV {
        self.with_pair(PairV { book: self.pair().book.cancelled(id), ..self.pair() })
    }

    /// The pair after its limit orders were traded as far as they meet.
    pub open spec fn orders_matched(self, precision: u8) -> Option<NodeV> {
        if self.kind is Virtual {
            match self.virtual_trading().matched(precision) {
                Some(t) => Some(self.with_virtual(t)),
                None => None,
            }
        } else {
            match matched(self.trading(), precision) {
                Some(t) => Some(self.with_trading(t)),
                None => None,
            }
        }
    }

    /// The pair after a new limit order was traded as far as it meets others.
    pub open spec fn brief_inserted(self, b: OrderBrief, precision: u8) -> Option<NodeV> {
        if self.kind is Virtual {
            match self.virtual_trading().inserted(precision, b) {
                Some(t) => Some(self.with_virtual(t)),
                None => None,
            }
        } else {
            let t = self.trading();
            match matched(t.with_book(t.pair.book.inserted(b)), precision) {
                Some(n) => Some(self.with_trading(n)),
                None => None,
            }
        }
    }

    /// The pair after a market order, the transfers that it makes and the orders to close.
    pub open spec fn swap_processed(
        self,
        owner: usize,
        d: Drt,
        volume: Decimal,
        precision: u8,
    ) -> Option<(NodeV, Seq<SwapTransfer>, Seq<usize>)> {
        if self.kind is Virtual {
            match self.virtual_trading().swapped(precision, d, owner, volume) {
                Some(t) => Some((self.with_virtual(t), Seq::empty(), Seq::empty())),
                None => None,
            }
        } else {
            match swapped(self.trading(), precision, d, owner, volume) {
                Some(s) => Some((self.with_trading(s.t), s.transfers, s.closes)),
                None => None,
            }
        }
    }

    /// The pair after several market orders of one side, the transfers and the orders to close.
    pub open spec fn swaps_processed(
        self,
        d: Drt,
        swaps: Seq<(usize, Decimal)>,
        precision: u8,
    ) -> Option<(NodeV, Seq<SwapTransfer>, Seq<usize>)> {
        if self.kind is Virtual {
            match self.virtual_trading().batched(precision, d, swaps, swaps.len()) {
                Some(t) => Some((self.with_virtual(t), Seq::empty(), Seq::empty())),
                None => None,
            }
        } else {
            match batched(self.trading(), precision, d, swaps) {
                Some(b) => Some((self.with_trading(b.t), b.transfers, b.closes)),
                None => None,
            }
        }
    }
}

/// What the engine asks of a pair. `precision` is the precision of the engine, which fees are cut
/// off at.
pub trait PairNode: Node {
    /// The token that prices are given in.
    fn get_quote_token(&self) -> (r: usize)
        ensures
            r == self@.pair().quote_token,
    ;

    /// The token that is priced.
    fn get_base_token(&self) -> (r: usize)
        ensures
            r == self@.pair().base_token,
    ;

    /// The current price.
    fn get_current_price(&self) -> (r: Decimal)
        ensures
            r == self@.pair().price,
    ;

    /// Sets the price that a contract quotes; only a virtual pair takes it.
    fn set_current_price(&mut self, price: Decimal)
        ensures
            final(self)@ == old(self)@.priced(price),
    ;

    /// Sets or drops the fee.
    fn set_fee_fn(&mut self, fee_fn: Option<FeeFn>)
        ensures
            final(self)@ == old(self)@.with_pair(PairV { fee: fee_fn, ..old(self)@.pair() }),
    ;

    /// The price level at a depth, zero where there are fewer levels.
    fn get_order_book(&self, direction: Drt, depth: usize) -> (r: Option<OrderBookDepth>)
        ensures
            r == level_at(self@.pair().book.queue(direction), depth),
    ;

    /// The trades.
    fn get_tra_logs(&self) -> (r: VecDeque<TraLog>)
        ensures
            r@ == self@.pair().logs,
    ;

    /// The candles of an interval, or `None` where a volume overflows.
    fn get_candle_data(&self, interval: u64) -> (r: Option<VecDeque<CandleData>>)
        ensures
            r is Some == candle_data(self@.pair().logs, interval) is Some,
            r is Some ==> r->0@ == candle_data(self@.pair().logs, interval)->0,
    ;

    /// The candle of the interval that the last trade lies in, or `None` where its volume
    /// overflows.
    fn latest_candle(&self, interval: u64) -> (r: Option<Option<CandleData>>)
        ensures
            r == last_candle(self@.pair().logs, interval),
    ;

    /// Adds a trade to the log.
    fn push_tra_log(
        &mut self,
        step_count: u64,
        src_id: usize,
        dst_id: usize,
        price: Decimal,
        volume: Decimal,
    )
        ensures
            final(self)@ == old(self)@.with_pair(
                PairV {
                    logs: logged(
                        old(self)@.pair().logs,
                        old(self)@.pair().max_tra_log_length,
                        (TraLog { step_count, buy_node: src_id, sell_node: dst_id, price, volume }),
                    ),
                    ..old(self)@.pair()
                },
            ),
    ;

    /// Takes note of what an order that the pair knows holds now.
    fn update_brief(&mut self, brief: OrderBrief)
        ensures
            final(self)@ == old(self)@.brief_updated(brief),
    ;

    /// Puts in a new limit order and trades it as far as it meets others. `None` where a number
    /// overflows or trading comes to no end.
    fn insert_brief(&mut self, brief: OrderBrief, precision: u8) -> (r: Option<()>)
        ensures
            r is Some == old(self)@.brief_inserted(brief, precision) is Some,
            r is Some ==> final(self)@ == old(self)@.brief_inserted(brief, precision)->0,
    ;

    /// Takes an order out.
    fn cancel_brief(&mut self, id: usize)
        ensures
            final(self)@ == old(self)@.brief_cancelled(id),
    ;

    /// Trades the limit orders as far as they meet. `None` where a number overflows or trading
    /// comes to no end.
    fn match_orders(&mut self, precision: u8) -> (r: Option<()>)
        ensures
            r is Some == old(self)@.orders_matched(precision) is Some,
            r is Some ==> final(self)@ == old(self)@.orders_matched(precision)->0,
    ;

    /// Trades a market order. Returns the transfers and the orders to close, or `None` where a
    /// number overflows or trading comes to no end.
    fn process_swap(
        &mut self,
        owner_id: usize,
        direction: Drt,
        volume: Decimal,
        precision: u8,
    ) -> (r: Option<(Vec<SwapTransfer>, Vec<usize>)>)
        ensures
            r is Some == old(self)@.swap_processed(owner_id, direction, volume, precision) is Some,
            r is Some ==> (final(self)@, (r->0).0@, (r->0).1@) == old(self)@.swap_processed(
                owner_id,
                direction,
                volume,
                precision,
            )->0,
    ;

    /// Trades several market orders of one side, which share what they meet. Returns the
    /// transfers and the orders to close, or `None` where a number overflows.
    fn process_swaps_batch(
        &mut self,
        direction: Drt,
        swaps: &Vec<(usize, Decimal)>,
        precision: u8,
    ) -> (r: Option<(Vec<SwapTransfer>, Vec<usize>)>)
        ensures
            r is Some == old(self)@.swaps_processed(direction, swaps@, precision) is Some,
            r is Some ==> (final(self)@, (r->0).0@, (r->0).1@) == old(self)@.swaps_processed(
                direction,
                swaps@,
                precision,
            )->0,
    ;
}

} // verus!
