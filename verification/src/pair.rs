//! Pairs of tokens that orders are traded on.

use crate::decimal::Decimal;
use crate::fee::{ask_for, fee_due, FeeCtx, FeeFn};
use crate::matching::{
    allocations, batch_all, batch_round, batched, buy_spent, by_loss, epsilon, exact_share,
    lemma_match_round, lemma_swap_round, lemma_units, limit_fee_ctx, limit_trade, loss_rank, losses,
    match_all, match_round, matched, paid_out, progress, settled, shared_out, swap_all,
    swap_fee_ctx, swap_potential, swap_round, swap_trade, swap_transfers, swapped, topped_up,
    total_of, Batch, Matching, PairV, Round, Swapping, Trading, BATCH_ROUNDS,
};
use crate::node::{
    CoreV, Drt, KindV, Msg, MsgV, Node, NodeCore, NodeV, OrderBookDepth, SwapTransfer,
};
use crate::order::OrderBrief;
use crate::order_book::{BookV, OrderBook};
use crate::pair_node::{depth_at, PairNode};
use crate::trade_log::{
    aggregate, aggregate_last, copy_logs, push_log, CandleData, TraLog,
};
use std::collections::VecDeque;
use vstd::prelude::*;

verus! {

/// A pair: one token is priced in the other.
pub struct Pair {
    core: NodeCore,
    quote_token: usize,
    base_token: usize,
    price: Decimal,
    step_count: u64,
    max_tra_log_length: usize,
    precision: u8,
    fee_fn: Option<FeeFn>,
    order_book: OrderBook,
    tra_logs: VecDeque<TraLog>,
}

impl View for Pair {
    type V = NodeV;

    closed spec fn view(&self) -> NodeV {
        NodeV { core: self.core@, kind: KindV::Pair(self.model()) }
    }
}

impl Node for Pair {
    fn base(&self) -> (r: &NodeCore) {
        &self.core
    }

    fn base_mut(&mut self) -> (r: &mut NodeCore) {
        &mut self.core
    }

    fn update(&mut self, step_count: u64) {
        self.step_count = step_count;
    }

    fn is_open(&self) -> (r: bool) {
        false
    }
}

impl PairV {
    /// A pair that nothing was traded on.
    pub open spec fn fresh(
        quote_token: usize,
        base_token: usize,
        price: Decimal,
        max_tra_log_length: usize,
        precision: u8,
    ) -> PairV {
        PairV {
            quote_token,
            base_token,
            price,
            step_count: 0,
            max_tra_log_length,
            precision,
            fee: None,
            book: BookV::empty(),
            logs: Seq::empty(),
        }
    }
}

impl Pair {
    spec fn model(self) -> PairV {
        PairV {
            quote_token: self.quote_token,
            base_token: self.base_token,
            price: self.price,
            step_count: self.step_count,
            max_tra_log_length: self.max_tra_log_length,
            precision: self.precision,
            fee: self.fee_fn,
            book: self.order_book@,
            logs: self.tra_logs@,
        }
    }

    spec fn trading(self) -> Trading {
        Trading { pair: self.model(), msgs: self.core@.msgs }
    }

    /// A pair that nothing was traded on.
    pub fn new(
        quote_token: usize,
        base_token: usize,
        price: Decimal,
        max_tra_log_length: usize,
        precision: u8,
    ) -> (r: Pair)
        ensures
            r@ == (NodeV {
                core: CoreV::empty(),
                kind: KindV::Pair(
                    PairV::fresh(quote_token, base_token, price, max_tra_log_length, precision),
                ),
            }),
    {
        Pair {
            core: NodeCore::new(),
            quote_token,
            base_token,
            price,
            step_count: 0,
            max_tra_log_length,
            precision,
            fee_fn: None,
            order_book: OrderBook::new(),
            tra_logs: VecDeque::new(),
        }
    }

    /// A pair is a pair.
    pub broadcast proof fn lemma_kind(self)
        ensures
            (#[trigger] self@).kind is Pair,
    {
    }

    /// Cancels an order and asks the engine to close it.
    fn close_order(&mut self, id: usize)
        ensures
            final(self).trading() == old(self).trading().closing(id),
            final(self).precision == old(self).precision,
            final(self).core@ == old(self).core@.with_msg(MsgV::CloseOrder { order_id: id }),
    {
        self.core.send_msg(Msg::CloseOrder { order_id: id });
        self.order_book.cancel(id);
        assert(self.trading().msgs =~= old(self).trading().closing(id).msgs);
    }

    /// What becomes of an order after a trade.
    fn settle(&mut self, spent: bool, id: usize, left: Decimal, received: Decimal)
        ensures
            final(self).trading() == settled(old(self).trading(), spent, id, left, received),
            final(self).core@ == (CoreV { msgs: final(self).core@.msgs, ..old(self).core@ }),
    {
        if spent {
            self.close_order(id);
        } else {
            self.order_book.update_volume(id, left, received);
        }
    }

    /// Sends what the fee strategy charges for a trade.
    fn send_fees(&mut self, precision: u8, ctx: FeeCtx) -> (r: Option<()>)
        ensures
            r is Some == fee_due(old(self).model().fee, precision, ctx) is Some,
            r is Some ==> final(self).trading() == old(self).trading().sending(
                fee_due(old(self).model().fee, precision, ctx)->0,
            ),
            final(self).core@ == (CoreV { msgs: final(self).core@.msgs, ..old(self).core@ }),
            final(self).precision == old(self).precision,
    {
        match &self.fee_fn {
            Some(fee) => {
                let msgs = ask_for(fee.charge(precision, ctx)?);
                self.core.append_msgs(msgs);
            },
            None => {},
        }
        assert(self.trading().msgs =~= old(self).trading().sending(
            fee_due(old(self).model().fee, precision, ctx)->0,
        ).msgs);
        Some(())
    }

    /// Whether what is left of a buy order cannot be traded any more.
    fn is_buy_spent(&self, unit: Decimal, left: Decimal, price: Decimal) -> (r: Option<bool>)
        ensures
            r == buy_spent(self.model(), unit, left, price),
    {
        if left <= unit {
            return Some(true);
        }
        let base = left.checked_div(price)?.truncate(self.precision);
        Some(base < unit)
    }

    /// One round of matching: `Some(true)` where there may be another one.
    fn match_best(&mut self, match_price: &mut Decimal, precision: u8, unit: Decimal) -> (r: Option<
        bool,
    >)
        ensures
            final(self).core@ == (CoreV { msgs: final(self).core@.msgs, ..old(self).core@ }),
            final(self).precision == old(self).precision,
            match match_round(
                Matching { t: old(self).trading(), price: *old(match_price) },
                precision,
                unit,
            ) {
                Round::Done => r == Some(false) && final(self).trading() == old(self).trading()
                    && *final(match_price) == *old(match_price),
                Round::Stuck => r is None,
                Round::Next(n) => r == Some(true) && (Matching {
                    t: final(self).trading(),
                    price: *final(match_price),
                }) == n,
            },
    {
        let ghost m = Matching { t: self.trading(), price: *match_price };
        let buy: OrderBrief = match self.order_book.best_buy() {
            Some(b) => *b,
            None => return Some(false),
        };
        let sell: OrderBrief = match self.order_book.best_sell() {
            Some(s) => *s,
            None => return Some(false),
        };
        let eps = Decimal::new(1, 12);
        if buy.price <= eps {
            self.close_order(buy.id);
            return Some(true);
        }
        if sell.price <= eps {
            self.close_order(sell.id);
            return Some(true);
        }
        if buy.price < sell.price {
            return Some(false);
        }
        let price: Decimal = if buy.step_count_created < sell.step_count_created {
            buy.price
        } else if buy.step_count_created > sell.step_count_created {
            sell.price
        } else {
            sell.price.checked_add(buy.price)?.checked_div(Decimal::new(2, 0))?
        };
        let base = buy.src_volume.checked_div(price)?.min(sell.src_volume).truncate(self.precision);
        let quote = base.checked_mul(price)?.min(buy.src_volume).truncate(self.precision);
        if base <= eps {
            *match_price = price;
            self.close_order(buy.id);
            return Some(true);
        }
        self.core.send_msg(
            Msg::Transfer {
                src_id: buy.id,
                dst_id: sell.id,
                token: self.quote_token,
                volume: quote,
                allow_negative: false,
            },
        );
        self.core.send_msg(
            Msg::Transfer {
                src_id: sell.id,
                dst_id: buy.id,
                token: self.base_token,
                volume: base,
                allow_negative: false,
            },
        );
        let log = TraLog {
            step_count: self.step_count,
            buy_node: buy.id,
            sell_node: sell.id,
            price: price.truncate(self.precision),
            volume: base,
        };
        push_log(&mut self.tra_logs, self.max_tra_log_length, log);
        let buyer_takes = buy.step_count_created >= sell.step_count_created;
        let ctx = FeeCtx {
            base_token: self.base_token,
            quote_token: self.quote_token,
            buyer_node: buy.id,
            seller_node: sell.id,
            taker_node: if buyer_takes { buy.id } else { sell.id },
            maker_node: if buyer_takes { sell.id } else { buy.id },
            base_volume: base,
            quote_volume: quote,
        };
        assert(ctx == limit_fee_ctx(m.t.pair, buy, sell, base, quote));
        self.send_fees(precision, ctx)?;
        let ghost t = limit_trade(m, precision, buy, sell, price, base, quote)->0;
        assert(self.trading().msgs =~= t.msgs);
        assert(self.trading() == t);
        let buy_left = buy.src_volume.checked_sub(quote)?;
        let sell_left = sell.src_volume.checked_sub(base)?;
        let buy_done = self.is_buy_spent(unit, buy_left, buy.price)?;
        let sell_done = sell_left <= unit;
        let buy_got = if buy_done {
            Decimal::zero()
        } else {
            buy.dst_volume.checked_add(base)?
        };
        let sell_got = if sell_done {
            Decimal::zero()
        } else {
            sell.dst_volume.checked_add(quote)?
        };
        if !buy_done && !sell_done && !(buy_left <= buy.src_volume && sell_left <= sell.src_volume
            && (buy_left < buy.src_volume || sell_left < sell.src_volume)) {
            assert(!progress(buy.src_volume, buy_left, sell.src_volume, sell_left));
            return None;
        }
        self.settle(buy_done, buy.id, buy_left, buy_got);
        self.settle(sell_done, sell.id, sell_left, sell_got);
        *match_price = price;
        Some(true)
    }

    /// One round of a market order: `Some(true)` where there may be another one.
    fn swap_best(
        &mut self,
        precision: u8,
        unit: Decimal,
        direction: Drt,
        owner_id: usize,
        remaining: &mut Decimal,
        transfers: &mut Vec<SwapTransfer>,
        closes: &mut Vec<usize>,
    ) -> (r: Option<bool>)
        ensures
            final(self).core@ == (CoreV { msgs: final(self).core@.msgs, ..old(self).core@ }),
            match swap_round(
                Swapping {
                    t: old(self).trading(),
                    transfers: old(transfers)@,
                    closes: old(closes)@,
                    remaining: *old(remaining),
                },
                precision,
                unit,
                direction,
                owner_id,
            ) {
                Round::Done => r == Some(false) && final(self).trading() == old(self).trading()
                    && final(transfers)@ == old(transfers)@ && final(closes)@ == old(closes)@
                    && *final(remaining) == *old(remaining),
                Round::Stuck => r is None,
                Round::Next(n) => r == Some(true) && (Swapping {
                    t: final(self).trading(),
                    transfers: final(transfers)@,
                    closes: final(closes)@,
                    remaining: *final(remaining),
                }) == n,
            },
    {
        let ghost s = Swapping {
            t: self.trading(),
            transfers: transfers@,
            closes: closes@,
            remaining: *remaining,
        };
        let eps = Decimal::new(1, 12);
        if *remaining <= eps {
            return Some(false);
        }
        let best = match direction {
            Drt::Buy => self.order_book.best_sell(),
            Drt::Sell => self.order_book.best_buy(),
        };
        let order: OrderBrief = match best {
            Some(o) => *o,
            None => return Some(false),
        };
        if order.price <= eps {
            closes.push(order.id);
            self.order_book.cancel(order.id);
            return Some(true);
        }
        let base = match direction {
            Drt::Buy => remaining.checked_div(order.price)?.min(order.src_volume),
            Drt::Sell => order.src_volume.checked_div(order.price)?.min(*remaining),
        }.truncate(self.precision);
        let cap = match direction {
            Drt::Buy => *remaining,
            Drt::Sell => order.src_volume,
        };
        let quote = base.checked_mul(order.price)?.min(cap).truncate(self.precision);
        if base <= eps {
            closes.push(order.id);
            self.order_book.cancel(order.id);
            return Some(true);
        }
        let (buyer, seller, paid, received, src_token, dst_token) = match direction {
            Drt::Buy => (owner_id, order.id, quote, base, self.quote_token, self.base_token),
            Drt::Sell => (order.id, owner_id, base, quote, self.base_token, self.quote_token),
        };
        transfers.push(
            SwapTransfer { src_id: owner_id, dst_id: order.id, token: src_token, volume: paid },
        );
        transfers.push(
            SwapTransfer { src_id: order.id, dst_id: owner_id, token: dst_token, volume: received },
        );
        assert(transfers@ =~= s.transfers + swap_transfers(
            s.t.pair,
            direction,
            owner_id,
            order.id,
            paid,
            received,
        ));
        let log = TraLog {
            step_count: self.step_count,
            buy_node: buyer,
            sell_node: seller,
            price: order.price,
            volume: base,
        };
        push_log(&mut self.tra_logs, self.max_tra_log_length, log);
        let ctx = FeeCtx {
            base_token: self.base_token,
            quote_token: self.quote_token,
            buyer_node: buyer,
            seller_node: seller,
            taker_node: owner_id,
            maker_node: order.id,
            base_volume: base,
            quote_volume: quote,
        };
        assert(ctx == swap_fee_ctx(s.t.pair, direction, owner_id, order.id, base, quote));
        self.send_fees(precision, ctx)?;
        assert(self.trading() == swap_trade(s.t, precision, direction, owner_id, order, base, quote)->0);
        self.price = order.price.truncate(self.precision);
        let now = remaining.checked_sub(paid)?;
        let left = order.src_volume.checked_sub(received)?;
        let done = match direction {
            Drt::Buy => left <= unit,
            Drt::Sell => self.is_buy_spent(unit, left, order.price)?,
        };
        if done {
            closes.push(order.id);
            self.order_book.cancel(order.id);
        } else {
            if !(now <= *remaining && left <= order.src_volume && (now < *remaining || left
                < order.src_volume)) {
                assert(!progress(s.remaining, now, order.src_volume, left));
                return None;
            }
            self.order_book.update_volume(order.id, left, order.dst_volume);
        }
        *remaining = now;
        Some(true)
    }

    /// Matches the limit orders until the best two do not meet. `None` where a number overflows
    /// or a round lowers nothing.
    fn match_limit_orders(&mut self, precision: u8) -> (r: Option<()>)
        ensures
            final(self).core@ == (CoreV { msgs: final(self).core@.msgs, ..old(self).core@ }),
            r is Some == matched(old(self).trading(), precision) is Some,
            r is Some ==> final(self).trading() == matched(old(self).trading(), precision)->0,
    {
        let unit = Decimal::unit(self.precision)?;
        let mut match_price = self.price;
        let ghost m0 = Matching { t: self.trading(), price: self.price };
        proof {
            lemma_units(self.precision);
        }
        let mut more = true;
        while more
            invariant
                self.core@ == (CoreV { msgs: self.core@.msgs, ..old(self).core@ }),
                self.precision == old(self).precision,
                unit.val() > 0,
                more ==> match_all(m0, precision, unit) == match_all(
                    Matching { t: self.trading(), price: match_price },
                    precision,
                    unit,
                ),
                !more ==> match_all(m0, precision, unit) == Some(
                    Matching { t: self.trading(), price: match_price },
                ),
                Decimal::unit_of(old(self).precision) == Some(unit),
                m0 == (Matching { t: old(self).trading(), price: old(self).price }),
            decreases
                self.order_book@.count(),
                self.order_book@.potential(),
                if more {
                    1int
                } else {
                    0
                },
        {
            let ghost m = Matching { t: self.trading(), price: match_price };
            proof {
                use_type_invariant(&self.order_book);
                if match_round(m, precision, unit) is Next {
                    lemma_match_round(m, precision, unit);
                }
            }
            more = self.match_best(&mut match_price, precision, unit)?;
        }
        self.price = match_price.truncate(self.precision);
        Some(())
    }

    /// Trades a market order until it is spent or nobody is left to trade with. `None` where a
    /// number overflows or a round lowers nothing.
    fn swap_market_order(&mut self, precision: u8, direction: Drt, owner_id: usize, volume: Decimal) -> (r: Option<(Vec<SwapTransfer>, Vec<usize>)>)
        ensures
            final(self).core@ == (CoreV { msgs: final(self).core@.msgs, ..old(self).core@ }),
            r is Some == swapped(old(self).trading(), precision, direction, owner_id, volume) is Some,
            r is Some ==> {
                let s = swapped(old(self).trading(), precision, direction, owner_id, volume)->0;
                &&& final(self).trading() == s.t
                &&& (r->0).0@ == s.transfers
                &&& (r->0).1@ == s.closes
            },
    {
        let unit = Decimal::unit(self.precision)?;
        let mut remaining = volume;
        let mut transfers: Vec<SwapTransfer> = Vec::new();
        let mut closes: Vec<usize> = Vec::new();
        let ghost s0 = Swapping {
            t: self.trading(),
            transfers: Seq::empty(),
            closes: Seq::empty(),
            remaining: volume,
        };
        proof {
            lemma_units(self.precision);
        }
        let mut more = true;
        while more
            invariant
                self.core@ == (CoreV { msgs: self.core@.msgs, ..old(self).core@ }),
                unit.val() > 0,
                epsilon().val() > 0,
                more ==> swap_all(s0, precision, unit, direction, owner_id) == swap_all(
                    Swapping {
                        t: self.trading(),
                        transfers: transfers@,
                        closes: closes@,
                        remaining,
                    },
                    precision,
                    unit,
                    direction,
                    owner_id,
                ),
                !more ==> swap_all(s0, precision, unit, direction, owner_id) == Some(
                    Swapping {
                        t: self.trading(),
                        transfers: transfers@,
                        closes: closes@,
                        remaining,
                    },
                ),
                swapped(old(self).trading(), precision, direction, owner_id, volume) == swap_all(
                    s0,
                    precision,
                    unit,
                    direction,
                    owner_id,
                ),
            decreases
                self.order_book@.count(),
                swap_potential(
                    Swapping {
                        t: self.trading(),
                        transfers: transfers@,
                        closes: closes@,
                        remaining,
                    },
                ),
                if more {
                    1int
                } else {
                    0
                },
        {
            let ghost s = Swapping {
                t: self.trading(),
                transfers: transfers@,
                closes: closes@,
                remaining,
            };
            proof {
                use_type_invariant(&self.order_book);
                if swap_round(s, precision, unit, direction, owner_id) is Next {
                    lemma_swap_round(s, precision, unit, direction, owner_id);
                }
            }
            more = self.swap_best(
                precision,
                unit,
                direction,
                owner_id,
                &mut remaining,
                &mut transfers,
                &mut closes,
            )?;
        }
        Some((transfers, closes))
    }

    /// The shares of the market orders, cut off at the pair's precision, and their sum.
    fn allocate(&self, avail: Decimal, total: Decimal, remain: &Vec<Decimal>) -> (r: Option<
        (Vec<(usize, Decimal)>, Decimal),
    >)
        ensures
            r is Some == allocations(
                self.model(),
                avail,
                total,
                remain@,
                remain@.len(),
            ) is Some,
            r is Some ==> ((r->0).0@, (r->0).1) == allocations(
                self.model(),
                avail,
                total,
                remain@,
                remain@.len(),
            )->0,
            r is Some ==> forall|x: int|
                0 <= x < (r->0).0@.len() ==> (#[trigger] (r->0).0@[x]).0 < remain@.len(),
    {
        let eps = Decimal::new(1, 12);
        let mut shares: Vec<(usize, Decimal)> = Vec::new();
        let mut sum = Decimal::zero();
        let mut i: usize = 0;
        while i < remain.len()
            invariant
                i <= remain@.len(),
                eps == epsilon(),
                allocations(self.model(), avail, total, remain@, i as nat) == Some((shares@, sum)),
                forall|x: int| 0 <= x < shares@.len() ==> (#[trigger] shares@[x]).0 < i,
            decreases remain@.len() - i,
        {
            let r = remain[i];
            if r > eps {
                let exact = share_of(avail, r, total);
                if exact.is_none() {
                    proof {
                        lemma_allocations_none(self.model(), avail, total, remain@, (i + 1) as nat);
                    }
                    return None;
                }
                let share = exact.unwrap().truncate(self.precision);
                if share > eps {
                    let more = sum.checked_add(share);
                    if more.is_none() {
                        proof {
                            lemma_allocations_none(self.model(), avail, total, remain@, (i + 1) as nat);
                        }
                        return None;
                    }
                    shares.push((i, share));
                    sum = more.unwrap();
                }
            }
            i = i + 1;
        }
        Some((shares, sum))
    }

    /// How what is available is shared out by the largest remainder.
    fn share_out(&self, unit: Decimal, avail: Decimal, total: Decimal, remain: &Vec<Decimal>) -> (r: Option<Vec<(usize, Decimal)>>)
        ensures
            r is Some == shared_out(self.model(), unit, avail, total, remain@) is Some,
            r is Some ==> r->0@ == shared_out(self.model(), unit, avail, total, remain@)->0,
            r is Some ==> forall|x: int|
                0 <= x < (r->0)@.len() ==> (#[trigger] (r->0)@[x]).0 < remain@.len(),
    {
        let (mut shares, sum) = self.allocate(avail, total, remain)?;
        if shares.len() == 0 {
            return Some(shares);
        }
        let remainder = avail.checked_sub(sum)?;
        if remainder >= unit {
            let lost = find_losses(avail, total, remain, &shares)?;
            let order = sort_losses(&lost, shares.len());
            top_up(&mut shares, &order, remainder, unit, remain.len())?;
        }
        Some(shares)
    }

    /// The trades of the shares with an order. Returns how much of the order is gone.
    fn pay_out(
        &mut self,
        precision: u8,
        direction: Drt,
        order: OrderBrief,
        swaps: &Vec<(usize, Decimal)>,
        shares: &Vec<(usize, Decimal)>,
        remain: &mut Vec<Decimal>,
        transfers: &mut Vec<SwapTransfer>,
        Ghost(closes): Ghost<Seq<usize>>,
    ) -> (r: Option<Decimal>)
        requires
            old(remain)@.len() == swaps@.len(),
            forall|x: int| 0 <= x < shares@.len() ==> (#[trigger] shares@[x]).0 < swaps@.len(),
        ensures
            final(self).core@ == (CoreV { msgs: final(self).core@.msgs, ..old(self).core@ }),
            final(remain)@.len() == swaps@.len(),
            ({
                let b = Batch {
                    t: old(self).trading(),
                    transfers: old(transfers)@,
                    closes,
                    remain: old(remain)@,
                };
                let out = paid_out(
                    b,
                    Decimal::of(0, 0),
                    precision,
                    direction,
                    order,
                    swaps@,
                    shares@,
                    0,
                );
                &&& r is Some == out is Some
                &&& r is Some ==> out->0 == (
                    Batch {
                        t: final(self).trading(),
                        transfers: final(transfers)@,
                        closes,
                        remain: final(remain)@,
                    },
                    r->0,
                )
            }),
    {
        let eps = Decimal::new(1, 12);
        let mut consumed = Decimal::zero();
        let mut i: usize = 0;
        let ghost out = paid_out(
            Batch { t: self.trading(), transfers: transfers@, closes, remain: remain@ },
            Decimal::of(0, 0),
            precision,
            direction,
            order,
            swaps@,
            shares@,
            0,
        );
        while i < shares.len()
            invariant
                i <= shares@.len(),
                eps == epsilon(),
                self.core@ == (CoreV { msgs: self.core@.msgs, ..old(self).core@ }),
                remain@.len() == swaps@.len(),
                forall|x: int| 0 <= x < shares@.len() ==> (#[trigger] shares@[x]).0 < swaps@.len(),
                out == paid_out(
                    Batch { t: self.trading(), transfers: transfers@, closes, remain: remain@ },
                    consumed,
                    precision,
                    direction,
                    order,
                    swaps@,
                    shares@,
                    i as nat,
                ),
                out == paid_out(
                    Batch {
                        t: old(self).trading(),
                        transfers: old(transfers)@,
                        closes,
                        remain: old(remain)@,
                    },
                    Decimal::of(0, 0),
                    precision,
                    direction,
                    order,
                    swaps@,
                    shares@,
                    0,
                ),
            decreases shares@.len() - i,
        {
            let ghost b = Batch { t: self.trading(), transfers: transfers@, closes, remain: remain@ };
            let (j, paid) = shares[i];
            assert(shares@[i as int].0 < swaps@.len());
            let owner = swaps[j].0;
            let worth = match direction {
                Drt::Buy => paid.checked_div(order.price)?,
                Drt::Sell => paid.checked_mul(order.price)?,
            };
            let rest = order.src_volume.checked_sub(consumed)?;
            let received = worth.min(rest).truncate(self.precision);
            if received > eps {
                let (base, quote, buyer, seller, src_token, dst_token) = match direction {
                    Drt::Buy => (
                        received,
                        paid,
                        owner,
                        order.id,
                        self.quote_token,
                        self.base_token,
                    ),
                    Drt::Sell => (
                        paid,
                        received,
                        order.id,
                        owner,
                        self.base_token,
                        self.quote_token,
                    ),
                };
                transfers.push(
                    SwapTransfer { src_id: owner, dst_id: order.id, token: src_token, volume: paid },
                );
                transfers.push(
                    SwapTransfer {
                        src_id: order.id,
                        dst_id: owner,
                        token: dst_token,
                        volume: received,
                    },
                );
                assert(transfers@ =~= b.transfers + swap_transfers(
                    b.t.pair,
                    direction,
                    owner,
                    order.id,
                    paid,
                    received,
                ));
                let log = TraLog {
                    step_count: self.step_count,
                    buy_node: buyer,
                    sell_node: seller,
                    price: order.price,
                    volume: base,
                };
                push_log(&mut self.tra_logs, self.max_tra_log_length, log);
                let ctx = FeeCtx {
                    base_token: self.base_token,
                    quote_token: self.quote_token,
                    buyer_node: buyer,
                    seller_node: seller,
                    taker_node: owner,
                    maker_node: order.id,
                    base_volume: base,
                    quote_volume: quote,
                };
                assert(ctx == swap_fee_ctx(b.t.pair, direction, owner, order.id, base, quote));
                self.send_fees(precision, ctx)?;
                assert(self.trading() == swap_trade(b.t, precision, direction, owner, order, base, quote)->0);
                let left = remain[j].checked_sub(paid)?;
                remain.set(j, left);
                consumed = consumed.checked_add(received)?;
            }
            i = i + 1;
        }
        Some(consumed)
    }

    /// One round of a batch: `Some(true)` where there may be another one.
    fn batch_best(
        &mut self,
        total: Decimal,
        precision: u8,
        unit: Decimal,
        direction: Drt,
        swaps: &Vec<(usize, Decimal)>,
        remain: &mut Vec<Decimal>,
        transfers: &mut Vec<SwapTransfer>,
        closes: &mut Vec<usize>,
    ) -> (r: Option<bool>)
        requires
            old(remain)@.len() == swaps@.len(),
        ensures
            final(self).core@ == (CoreV { msgs: final(self).core@.msgs, ..old(self).core@ }),
            final(remain)@.len() == swaps@.len(),
            match batch_round(
                Batch {
                    t: old(self).trading(),
                    transfers: old(transfers)@,
                    closes: old(closes)@,
                    remain: old(remain)@,
                },
                total,
                precision,
                unit,
                direction,
                swaps@,
            ) {
                Round::Done => r == Some(false) && final(self).trading() == old(self).trading()
                    && final(transfers)@ == old(transfers)@ && final(closes)@ == old(closes)@
                    && final(remain)@ == old(remain)@,
                Round::Stuck => r is None,
                Round::Next(n) => r == Some(true) && (Batch {
                    t: final(self).trading(),
                    transfers: final(transfers)@,
                    closes: final(closes)@,
                    remain: final(remain)@,
                }) == n,
            },
    {
        let eps = Decimal::new(1, 12);
        proof {
            Decimal::lemma_zero();
        }
        let best = match direction {
            Drt::Buy => self.order_book.best_sell(),
            Drt::Sell => self.order_book.best_buy(),
        };
        let order: OrderBrief = match best {
            Some(o) => *o,
            None => return Some(false),
        };
        if order.price <= eps {
            closes.push(order.id);
            self.order_book.cancel(order.id);
            return Some(true);
        }
        let avail = match direction {
            Drt::Buy => order.src_volume.checked_mul(order.price)?,
            Drt::Sell => order.src_volume.checked_div(order.price)?,
        }.min(total);
        if avail <= eps {
            closes.push(order.id);
            self.order_book.cancel(order.id);
            return Some(true);
        }
        let shares = self.share_out(unit, avail, total, remain)?;
        if shares.len() == 0 {
            closes.push(order.id);
            self.order_book.cancel(order.id);
            return Some(true);
        }
        let consumed = self.pay_out(
            precision,
            direction,
            order,
            swaps,
            &shares,
            remain,
            transfers,
            Ghost(closes@),
        )?;
        if consumed <= eps {
            closes.push(order.id);
            self.order_book.cancel(order.id);
            return Some(true);
        }
        self.price = order.price.truncate(self.precision);
        let left = order.src_volume.checked_sub(consumed)?;
        let too_small = match direction {
            Drt::Buy => false,
            Drt::Sell => left.checked_div(order.price)?.truncate(self.precision) < unit,
        };
        if left <= unit || too_small {
            closes.push(order.id);
            self.order_book.cancel(order.id);
        } else {
            let worth = match direction {
                Drt::Buy => order.price.checked_mul(consumed)?,
                Drt::Sell => consumed.checked_div(order.price)?,
            };
            let got = order.dst_volume.checked_add(worth)?;
            self.order_book.update_volume(order.id, left, got);
        }
        Some(true)
    }

    /// Trades a batch of market orders of one side, which share every order that they meet.
    fn swap_batch(&mut self, precision: u8, direction: Drt, swaps: &Vec<(usize, Decimal)>) -> (r: Option<(Vec<SwapTransfer>, Vec<usize>)>)
        ensures
            final(self).core@ == (CoreV { msgs: final(self).core@.msgs, ..old(self).core@ }),
            r is Some == batched(old(self).trading(), precision, direction, swaps@) is Some,
            r is Some ==> {
                let b = batched(old(self).trading(), precision, direction, swaps@)->0;
                &&& final(self).trading() == b.t
                &&& (r->0).0@ == b.transfers
                &&& (r->0).1@ == b.closes
            },
    {
        let unit = Decimal::unit(self.precision)?;
        let eps = Decimal::new(1, 12);
        let mut transfers: Vec<SwapTransfer> = Vec::new();
        let mut closes: Vec<usize> = Vec::new();
        let mut remain: Vec<Decimal> = Vec::new();
        let mut k: usize = 0;
        while k < swaps.len()
            invariant
                k <= swaps@.len(),
                remain@ == swaps@.take(k as int).map_values(|s: (usize, Decimal)| s.1),
            decreases swaps@.len() - k,
        {
            remain.push(swaps[k].1);
            k = k + 1;
            assert(remain@ =~= swaps@.take(k as int).map_values(|s: (usize, Decimal)| s.1));
        }
        assert(swaps@.take(k as int) =~= swaps@);
        let ghost b0 = Batch {
            t: self.trading(),
            transfers: transfers@,
            closes: closes@,
            remain: remain@,
        };
        let mut rounds: u32 = BATCH_ROUNDS;
        loop
            invariant
                self.core@ == (CoreV { msgs: self.core@.msgs, ..old(self).core@ }),
                remain@.len() == swaps@.len(),
                eps == epsilon(),
                batched(old(self).trading(), precision, direction, swaps@) == batch_all(
                    b0,
                    precision,
                    unit,
                    direction,
                    swaps@,
                    BATCH_ROUNDS as nat,
                ),
                batch_all(b0, precision, unit, direction, swaps@, BATCH_ROUNDS as nat)
                    == batch_all(
                    Batch {
                        t: self.trading(),
                        transfers: transfers@,
                        closes: closes@,
                        remain: remain@,
                    },
                    precision,
                    unit,
                    direction,
                    swaps@,
                    rounds as nat,
                ),
            decreases rounds,
        {
            let total = sum_up(&remain)?;
            if total <= eps || rounds == 0 {
                return Some((transfers, closes));
            }
            let more = self.batch_best(
                total,
                precision,
                unit,
                direction,
                swaps,
                &mut remain,
                &mut transfers,
                &mut closes,
            )?;
            if !more {
                return Some((transfers, closes));
            }
            rounds = rounds - 1;
        }
    }
}

impl PairNode for Pair {
    fn get_quote_token(&self) -> (r: usize) {
        self.quote_token
    }

    fn get_base_token(&self) -> (r: usize) {
        self.base_token
    }

    fn get_current_price(&self) -> (r: Decimal) {
        self.price
    }

    fn set_current_price(&mut self, _price: Decimal) {
    }

    fn set_fee_fn(&mut self, fee_fn: Option<FeeFn>) {
        self.fee_fn = fee_fn;
    }

    fn get_order_book(&self, direction: Drt, depth: usize) -> (r: Option<OrderBookDepth>) {
        depth_at(&self.order_book, direction, depth)
    }

    fn get_tra_logs(&self) -> (r: VecDeque<TraLog>) {
        copy_logs(&self.tra_logs)
    }

    fn get_candle_data(&self, interval: u64) -> (r: Option<VecDeque<CandleData>>) {
        aggregate(&self.tra_logs, interval)
    }

    fn latest_candle(&self, interval: u64) -> (r: Option<Option<CandleData>>) {
        aggregate_last(&self.tra_logs, interval)
    }

    fn push_tra_log(
        &mut self,
        step_count: u64,
        src_id: usize,
        dst_id: usize,
        price: Decimal,
        volume: Decimal,
    ) {
        let log = TraLog { step_count, buy_node: src_id, sell_node: dst_id, price, volume };
        push_log(&mut self.tra_logs, self.max_tra_log_length, log);
    }

    fn update_brief(&mut self, brief: OrderBrief) {
        if self.order_book.contains(brief.id) {
            self.order_book.update_volume(brief.id, brief.src_volume, brief.dst_volume);
        }
    }

    fn insert_brief(&mut self, brief: OrderBrief, precision: u8) -> (r: Option<()>) {
        self.order_book.insert(&brief);
        self.match_limit_orders(precision)
    }

    fn cancel_brief(&mut self, id: usize) {
        self.order_book.cancel(id);
    }

    fn match_orders(&mut self, precision: u8) -> (r: Option<()>) {
        self.match_limit_orders(precision)
    }

    fn process_swap(
        &mut self,
        owner_id: usize,
        direction: Drt,
        volume: Decimal,
        precision: u8,
    ) -> (r: Option<(Vec<SwapTransfer>, Vec<usize>)>) {
        self.swap_market_order(precision, direction, owner_id, volume)
    }

    fn process_swaps_batch(
        &mut self,
        direction: Drt,
        swaps: &Vec<(usize, Decimal)>,
        precision: u8,
    ) -> (r: Option<(Vec<SwapTransfer>, Vec<usize>)>) {
        self.swap_batch(precision, direction, swaps)
    }
}

/// The part of what is available that falls to a market order with `r` left to spend.
fn share_of(avail: Decimal, r: Decimal, total: Decimal) -> (s: Option<Decimal>)
    ensures
        s == exact_share(avail, r, total),
{
    avail.checked_mul(r)?.checked_div(total)
}

/// Where the shares of some market orders overflow, those of all do.
proof fn lemma_allocations_none(
    p: PairV,
    avail: Decimal,
    total: Decimal,
    remain: Seq<Decimal>,
    k: nat,
)
    requires
        k <= remain.len(),
        allocations(p, avail, total, remain, k) is None,
    ensures
        allocations(p, avail, total, remain, remain.len()) is None,
    decreases remain.len() - k,
{
    if k < remain.len() {
        lemma_allocations_none(p, avail, total, remain, k + 1);
    }
}

/// Where one loss overflows, no list of more losses exists.
proof fn lemma_losses_none(
    avail: Decimal,
    total: Decimal,
    remain: Seq<Decimal>,
    shares: Seq<(usize, Decimal)>,
    k: nat,
)
    requires
        k <= shares.len(),
        losses(avail, total, remain, shares, k) is None,
    ensures
        losses(avail, total, remain, shares, shares.len()) is None,
    decreases shares.len() - k,
{
    if k < shares.len() {
        lemma_losses_none(avail, total, remain, shares, k + 1);
    }
}

/// What each share lost by the cut, with its position.
fn find_losses(
    avail: Decimal,
    total: Decimal,
    remain: &Vec<Decimal>,
    shares: &Vec<(usize, Decimal)>,
) -> (r: Option<Vec<(usize, Decimal)>>)
    requires
        forall|x: int| 0 <= x < shares@.len() ==> (#[trigger] shares@[x]).0 < remain@.len(),
    ensures
        r is Some == losses(avail, total, remain@, shares@, shares@.len()) is Some,
        r is Some ==> r->0@ == losses(avail, total, remain@, shares@, shares@.len())->0,
        r is Some ==> forall|x: int|
            0 <= x < (r->0)@.len() ==> (#[trigger] (r->0)@[x]).0 < shares@.len(),
{
    let mut out: Vec<(usize, Decimal)> = Vec::new();
    let mut i: usize = 0;
    while i < shares.len()
        invariant
            i <= shares@.len(),
            forall|x: int| 0 <= x < shares@.len() ==> (#[trigger] shares@[x]).0 < remain@.len(),
            losses(avail, total, remain@, shares@, i as nat) == Some(out@),
            forall|x: int| 0 <= x < out@.len() ==> (#[trigger] out@[x]).0 < i,
        decreases shares@.len() - i,
    {
        let (j, floor) = shares[i];
        assert(shares@[i as int].0 < remain@.len());
        let exact = share_of(avail, remain[j], total);
        let loss = match exact {
            Some(e) => e.checked_sub(floor),
            None => None,
        };
        match loss {
            Some(l) => {
                out.push((i, l));
            },
            None => {
                proof {
                    lemma_losses_none(avail, total, remain@, shares@, (i + 1) as nat);
                }
                return None;
            },
        }
        i = i + 1;
    }
    Some(out)
}

/// Losses by falling size, those of one size in their order.
fn sort_losses(lost: &Vec<(usize, Decimal)>, bound: usize) -> (r: Vec<(usize, Decimal)>)
    requires
        forall|x: int| 0 <= x < lost@.len() ==> (#[trigger] lost@[x]).0 < bound,
    ensures
        r@ == by_loss(lost@),
        forall|x: int| 0 <= x < r@.len() ==> (#[trigger] r@[x]).0 < bound,
{
    let mut out: Vec<(usize, Decimal)> = Vec::new();
    let mut i: usize = 0;
    assert(lost@.take(0) =~= Seq::empty());
    while i < lost.len()
        invariant
            i <= lost@.len(),
            out@ == by_loss(lost@.take(i as int)),
            forall|x: int| 0 <= x < lost@.len() ==> (#[trigger] lost@[x]).0 < bound,
            forall|x: int| 0 <= x < out@.len() ==> (#[trigger] out@[x]).0 < bound,
        decreases lost@.len() - i,
    {
        let x = lost[i];
        let mut j: usize = 0;
        while j < out.len() && out[j].1 >= x.1
            invariant
                j <= out@.len(),
                loss_rank(out@, x.1, 0) == loss_rank(out@, x.1, j as nat),
            decreases out@.len() - j,
        {
            j = j + 1;
        }
        proof {
            assert(lost@.take(i + 1).drop_last() =~= lost@.take(i as int));
            assert(lost@.take(i + 1).last() == x);
        }
        let ghost before = out@;
        out.insert(j, x);
        assert forall|y: int| 0 <= y < out@.len() implies (#[trigger] out@[y]).0 < bound by {
            if y < j {
                assert(out@[y] == before[y]);
            } else if y > j {
                assert(out@[y] == before[y - 1]);
            } else {
                assert(out@[y] == lost@[i as int]);
            }
        }
        i = i + 1;
    }
    assert(lost@.take(i as int) =~= lost@);
    out
}

/// Gives one unit more to each share in the given order, as long as `rem` lasts.
fn top_up(
    shares: &mut Vec<(usize, Decimal)>,
    order: &Vec<(usize, Decimal)>,
    rem: Decimal,
    unit: Decimal,
    bound: usize,
) -> (r: Option<()>)
    requires
        forall|x: int| 0 <= x < order@.len() ==> (#[trigger] order@[x]).0 < old(shares)@.len(),
        forall|x: int| 0 <= x < old(shares)@.len() ==> (#[trigger] old(shares)@[x]).0 < bound,
    ensures
        r is Some == topped_up(old(shares)@, order@, 0, rem, unit) is Some,
        r is Some ==> final(shares)@ == topped_up(old(shares)@, order@, 0, rem, unit)->0,
        forall|x: int| 0 <= x < final(shares)@.len() ==> (#[trigger] final(shares)@[x]).0 < bound,
{
    let mut left = rem;
    let mut i: usize = 0;
    while i < order.len() && left >= unit
        invariant
            i <= order@.len(),
            shares@.len() == old(shares)@.len(),
            forall|x: int| 0 <= x < order@.len() ==> (#[trigger] order@[x]).0 < shares@.len(),
            forall|x: int| 0 <= x < shares@.len() ==> (#[trigger] shares@[x]).0 < bound,
            topped_up(old(shares)@, order@, 0, rem, unit) == topped_up(
                shares@,
                order@,
                i as nat,
                left,
                unit,
            ),
        decreases order@.len() - i,
    {
        let j = order[i].0;
        assert(order@[i as int].0 < shares@.len());
        let (owner, share) = shares[j];
        assert(shares@[j as int].0 < bound);
        let more = share.checked_add(unit)?;
        left = left.checked_sub(unit)?;
        shares.set(j, (owner, more));
        i = i + 1;
    }
    Some(())
}

/// The sum of volumes.
fn sum_up(v: &Vec<Decimal>) -> (r: Option<Decimal>)
    ensures
        r == total_of(v@),
{
    let mut sum = Decimal::zero();
    let mut i: usize = 0;
    assert(v@.take(0) =~= Seq::empty());
    while i < v.len()
        invariant
            i <= v@.len(),
            total_of(v@.take(i as int)) == Some(sum),
        decreases v@.len() - i,
    {
        proof {
            assert(v@.take(i + 1).drop_last() =~= v@.take(i as int));
            assert(v@.take(i + 1).last() == v@[i as int]);
        }
        match sum.checked_add(v[i]) {
            Some(s) => {
                sum = s;
            },
            None => {
                proof {
                    lemma_total_none(v@, i + 1);
                }
                return None;
            },
        }
        i = i + 1;
    }
    assert(v@.take(i as int) =~= v@);
    Some(sum)
}

/// Where the sum of some volumes overflows, that of all does.
proof fn lemma_total_none(v: Seq<Decimal>, i: int)
    requires
        0 <= i <= v.len(),
        total_of(v.take(i)) is None,
    ensures
        total_of(v) is None,
    decreases v.len() - i,
{
    if i < v.len() {
        assert(v.take(i + 1).drop_last() =~= v.take(i));
        lemma_total_none(v, i + 1);
    } else {
        assert(v.take(i) =~= v);
    }
}

} // verus!
