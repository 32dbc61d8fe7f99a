//! How a pair trades: limit orders against each other, and market orders against limit orders.

use crate::decimal::{
    decimal_difference, decimal_quotient, decimal_sum, opt_difference, opt_least, opt_product,
    opt_quotient, opt_sum, opt_truncated, Decimal,
};
use crate::fee::{fee_due, FeeCtx, FeeFn};
use crate::node::{Drt, MsgV, SwapTransfer};
use crate::order::OrderBrief;
use crate::order_book::{potential, spendable, BookV};
use crate::trade_log::{logged, TraLog};
use vstd::prelude::*;

verus! {

/// A pair: its tokens, its last price, its order book and its trades.
#[verifier::ext_equal]
pub struct PairV {
    pub quote_token: usize,
    pub base_token: usize,
    pub price: Decimal,
    pub step_count: u64,
    pub max_tra_log_length: usize,
    pub precision: u8,
    pub fee: Option<FeeFn>,
    pub book: BookV,
    pub logs: Seq<TraLog>,
}

/// A pair and the messages that it has sent.
#[verifier::ext_equal]
pub struct Trading {
    pub pair: PairV,
    pub msgs: Seq<MsgV>,
}

/// The outcome of one round of a loop over states.
pub enum Round<S> {
    /// The loop is over.
    Done,
    /// A number overflowed, or the round changed nothing that the loop depends on.
    Stuck,
    /// The loop goes on from here.
    Next(S),
}

/// What counts as nothing: prices and volumes up to this are not traded.
pub open spec fn epsilon() -> Decimal {
    Decimal::of(1, 12)
}

impl PairV {
    pub open spec fn with_log(self, buy: usize, sell: usize, price: Decimal, volume: Decimal) -> PairV {
        PairV {
            logs: logged(
                self.logs,
                self.max_tra_log_length,
                TraLog {
                    step_count: self.step_count,
                    buy_node: buy,
                    sell_node: sell,
                    price,
                    volume,
                },
            ),
            ..self
        }
    }

    /// A value cut off at the pair's precision.
    pub open spec fn round(self, v: Option<Decimal>) -> Option<Decimal> {
        opt_truncated(v, self.precision)
    }
}

impl Trading {
    pub open spec fn sending(self, msgs: Seq<MsgV>) -> Trading {
        Trading { msgs: self.msgs + msgs, ..self }
    }

    pub open spec fn with_book(self, book: BookV) -> Trading {
        Trading { pair: PairV { book, ..self.pair }, ..self }
    }

    pub open spec fn with_price(self, price: Decimal) -> Trading {
        Trading { pair: PairV { price, ..self.pair }, ..self }
    }

    /// Cancels an order and asks the engine to close it.
    pub open spec fn closing(self, id: usize) -> Trading {
        self.with_book(self.pair.book.cancelled(id)).sending(
            seq![MsgV::CloseOrder { order_id: id }],
        )
    }
}

/// Whether volumes that a round may only lower were lowered.
pub open spec fn progress(a: Decimal, a2: Decimal, b: Decimal, b2: Decimal) -> bool {
    &&& a2.val() <= a.val()
    &&& b2.val() <= b.val()
    &&& a2.val() < a.val() || b2.val() < b.val()
}

// ---- limit orders against each other ----

/// The price at which two orders trade: that of the one that was opened first, or the middle
/// where both were opened in one frame.
pub open spec fn trade_price(buy: OrderBrief, sell: OrderBrief) -> Option<Decimal> {
    if buy.step_count_created < sell.step_count_created {
        Some(buy.price)
    } else if buy.step_count_created > sell.step_count_created {
        Some(sell.price)
    } else {
        opt_quotient(decimal_sum(sell.price, buy.price), Some(Decimal::of(2, 0)))
    }
}

/// The state of matching: the pair and the price of the last trade.
#[verifier::ext_equal]
pub struct Matching {
    pub t: Trading,
    pub price: Decimal,
}

/// Who takes and who makes where two limit orders trade: the one that was opened later takes,
/// the buyer where both were opened in one frame.
pub open spec fn limit_fee_ctx(
    p: PairV,
    buy: OrderBrief,
    sell: OrderBrief,
    base: Decimal,
    quote: Decimal,
) -> FeeCtx {
    let buyer_takes = buy.step_count_created >= sell.step_count_created;
    FeeCtx {
        base_token: p.base_token,
        quote_token: p.quote_token,
        buyer_node: buy.id,
        seller_node: sell.id,
        taker_node: if buyer_takes { buy.id } else { sell.id },
        maker_node: if buyer_takes { sell.id } else { buy.id },
        base_volume: base,
        quote_volume: quote,
    }
}

/// Whether what is left of a buy order cannot be traded any more. `None` where that overflows.
pub open spec fn buy_spent(p: PairV, unit: Decimal, left: Decimal, price: Decimal) -> Option<bool> {
    if left.val() <= unit.val() {
        Some(true)
    } else {
        match p.round(decimal_quotient(left, price)) {
            Some(base) => Some(base.val() < unit.val()),
            None => None,
        }
    }
}

/// The order book after a buy order has `left` to spend: without it where it is spent.
pub open spec fn settled(
    t: Trading,
    spent: bool,
    id: usize,
    left: Decimal,
    received: Decimal,
) -> Trading {
    if spent {
        t.closing(id)
    } else {
        t.with_book(t.pair.book.with_volume(id, left, received))
    }
}

/// The messages, the log entry and the fee of a trade between two limit orders.
pub open spec fn limit_trade(
    m: Matching,
    precision: u8,
    buy: OrderBrief,
    sell: OrderBrief,
    price: Decimal,
    base: Decimal,
    quote: Decimal,
) -> Option<Trading> {
    let p = m.t.pair;
    match fee_due(p.fee, precision, limit_fee_ctx(p, buy, sell, base, quote)) {
        Some(fees) => Some(
            (Trading {
                pair: p.with_log(buy.id, sell.id, price.truncated(p.precision as nat), base),
                ..m.t
            }).sending(
                seq![
                    MsgV::Transfer {
                        src_id: buy.id,
                        dst_id: sell.id,
                        token: p.quote_token,
                        volume: quote,
                        allow_negative: false,
                    },
                    MsgV::Transfer {
                        src_id: sell.id,
                        dst_id: buy.id,
                        token: p.base_token,
                        volume: base,
                        allow_negative: false,
                    },
                ],
            ).sending(fees),
        ),
        None => None,
    }
}

/// One round of matching the best two limit orders.
pub open spec fn match_round(m: Matching, precision: u8, unit: Decimal) -> Round<Matching> {
    let p = m.t.pair;
    if p.book.buys.len() == 0 || p.book.sells.len() == 0 {
        Round::Done
    } else {
        let buy = p.book.buys[0];
        let sell = p.book.sells[0];
        let eps = epsilon().val();
        if buy.price.val() <= eps {
            Round::Next(Matching { t: m.t.closing(buy.id), ..m })
        } else if sell.price.val() <= eps {
            Round::Next(Matching { t: m.t.closing(sell.id), ..m })
        } else if buy.price.val() < sell.price.val() {
            Round::Done
        } else {
            let price = trade_price(buy, sell);
            let base = p.round(
                opt_least(opt_quotient(Some(buy.src_volume), price), Some(sell.src_volume)),
            );
            let quote = p.round(opt_least(opt_product(base, price), Some(buy.src_volume)));
            if quote is None {
                Round::Stuck
            } else if (base->0).val() <= eps {
                Round::Next(Matching { t: m.t.closing(buy.id), price: price->0 })
            } else {
                match limit_trade(m, precision, buy, sell, price->0, base->0, quote->0) {
                    Some(t) => limit_settle(t, unit, buy, sell, price->0, base->0, quote->0),
                    None => Round::Stuck,
                }
            }
        }
    }
}

/// What becomes of the two orders after a trade.
pub open spec fn limit_settle(
    t: Trading,
    unit: Decimal,
    buy: OrderBrief,
    sell: OrderBrief,
    price: Decimal,
    base: Decimal,
    quote: Decimal,
) -> Round<Matching> {
    let buy_left = decimal_difference(buy.src_volume, quote);
    let sell_left = decimal_difference(sell.src_volume, base);
    if buy_left is None || sell_left is None {
        Round::Stuck
    } else {
        let buy_done = buy_spent(t.pair, unit, buy_left->0, buy.price);
        let sell_done = (sell_left->0).val() <= unit.val();
        let buy_got = decimal_sum(buy.dst_volume, base);
        let sell_got = decimal_sum(sell.dst_volume, quote);
        if buy_done is None || (!buy_done->0 && buy_got is None) || (!sell_done && sell_got
            is None) {
            Round::Stuck
        } else if !buy_done->0 && !sell_done && !progress(
            buy.src_volume,
            buy_left->0,
            sell.src_volume,
            sell_left->0,
        ) {
            Round::Stuck
        } else {
            let t1 = settled(t, buy_done->0, buy.id, buy_left->0, buy_got->0);
            let t2 = settled(t1, sell_done, sell.id, sell_left->0, sell_got->0);
            Round::Next(Matching { t: t2, price })
        }
    }
}

/// Whether a book is smaller: it has fewer orders, or as many with less left to spend.
pub open spec fn smaller(a: BookV, b: BookV) -> bool {
    a.count() < b.count() || (a.count() == b.count() && a.potential() < b.potential())
}

/// Matching the best two limit orders until they do not meet. `None` where a number overflows or
/// a round lowers nothing.
pub open spec fn match_all(m: Matching, precision: u8, unit: Decimal) -> Option<Matching>
    decreases m.t.pair.book.count(), m.t.pair.book.potential(),
{
    match match_round(m, precision, unit) {
        Round::Done => Some(m),
        Round::Stuck => None,
        Round::Next(n) => if smaller(n.t.pair.book, m.t.pair.book) {
            match_all(n, precision, unit)
        } else {
            None
        },
    }
}

/// A pair after its limit orders were matched.
pub open spec fn matched(t: Trading, precision: u8) -> Option<Trading> {
    match Decimal::unit_of(t.pair.precision) {
        Some(unit) => match match_all(Matching { t, price: t.pair.price }, precision, unit) {
            Some(m) => Some(m.t.with_price(m.price.truncated(t.pair.precision as nat))),
            None => None,
        },
        None => None,
    }
}

// ---- one market order ----

/// The other side.
pub open spec fn opposite(d: Drt) -> Drt {
    match d {
        Drt::Buy => Drt::Sell,
        Drt::Sell => Drt::Buy,
    }
}

/// The state of a market order: the pair, what was traded so far, the orders to close, and what
/// is left to spend.
#[verifier::ext_equal]
pub struct Swapping {
    pub t: Trading,
    pub transfers: Seq<SwapTransfer>,
    pub closes: Seq<usize>,
    pub remaining: Decimal,
}

impl Swapping {
    /// Cancels an order and notes that the engine is to close it.
    pub open spec fn closing(self, id: usize) -> Swapping {
        Swapping {
            t: self.t.with_book(self.t.pair.book.cancelled(id)),
            closes: self.closes.push(id),
            ..self
        }
    }
}

/// How much of the base token a market order with `remaining` to spend trades with an order.
pub open spec fn fill_base(p: PairV, d: Drt, remaining: Decimal, o: OrderBrief) -> Option<Decimal> {
    match d {
        Drt::Buy => p.round(
            opt_least(decimal_quotient(remaining, o.price), Some(o.src_volume)),
        ),
        Drt::Sell => p.round(
            opt_least(decimal_quotient(o.src_volume, o.price), Some(remaining)),
        ),
    }
}

/// How much of the quote token is paid for it.
pub open spec fn fill_quote(
    p: PairV,
    d: Drt,
    remaining: Decimal,
    o: OrderBrief,
    base: Option<Decimal>,
) -> Option<Decimal> {
    p.round(
        opt_least(
            opt_product(base, Some(o.price)),
            Some(
                match d {
                    Drt::Buy => remaining,
                    Drt::Sell => o.src_volume,
                },
            ),
        ),
    )
}

/// The fee context of a market order's trade.
pub open spec fn swap_fee_ctx(
    p: PairV,
    d: Drt,
    owner: usize,
    maker: usize,
    base: Decimal,
    quote: Decimal,
) -> FeeCtx {
    FeeCtx {
        base_token: p.base_token,
        quote_token: p.quote_token,
        buyer_node: if d == Drt::Buy { owner } else { maker },
        seller_node: if d == Drt::Buy { maker } else { owner },
        taker_node: owner,
        maker_node: maker,
        base_volume: base,
        quote_volume: quote,
    }
}

/// The two transfers of a market order's trade: what the owner pays, then what they receive.
pub open spec fn swap_transfers(
    p: PairV,
    d: Drt,
    owner: usize,
    maker: usize,
    paid: Decimal,
    received: Decimal,
) -> Seq<SwapTransfer> {
    let (src, dst) = match d {
        Drt::Buy => (p.quote_token, p.base_token),
        Drt::Sell => (p.base_token, p.quote_token),
    };
    seq![
        SwapTransfer { src_id: owner, dst_id: maker, token: src, volume: paid },
        SwapTransfer { src_id: maker, dst_id: owner, token: dst, volume: received },
    ]
}

/// A pair after a trade of a market order: the log entry and the fee.
pub open spec fn swap_trade(
    t: Trading,
    precision: u8,
    d: Drt,
    owner: usize,
    o: OrderBrief,
    base: Decimal,
    quote: Decimal,
) -> Option<Trading> {
    let p = t.pair;
    let buyer = if d == Drt::Buy { owner } else { o.id };
    let seller = if d == Drt::Buy { o.id } else { owner };
    match fee_due(p.fee, precision, swap_fee_ctx(p, d, owner, o.id, base, quote)) {
        Some(fees) => Some(
            (Trading { pair: p.with_log(buyer, seller, o.price, base), ..t }).sending(fees),
        ),
        None => None,
    }
}

/// One round of a market order: a trade with the best order of the other side.
pub open spec fn swap_round(
    s: Swapping,
    precision: u8,
    unit: Decimal,
    d: Drt,
    owner: usize,
) -> Round<Swapping> {
    let p = s.t.pair;
    let q = p.book.queue(opposite(d));
    let eps = epsilon().val();
    if s.remaining.val() <= eps || q.len() == 0 {
        Round::Done
    } else {
        let o = q[0];
        if o.price.val() <= eps {
            Round::Next(s.closing(o.id))
        } else {
            let base = fill_base(p, d, s.remaining, o);
            let quote = fill_quote(p, d, s.remaining, o, base);
            if quote is None {
                Round::Stuck
            } else if (base->0).val() <= eps {
                Round::Next(s.closing(o.id))
            } else {
                match swap_trade(s.t, precision, d, owner, o, base->0, quote->0) {
                    Some(t) => swap_settle(s, t, unit, d, owner, o, base->0, quote->0),
                    None => Round::Stuck,
                }
            }
        }
    }
}

/// What becomes of the market order and of the order that it traded with.
pub open spec fn swap_settle(
    s: Swapping,
    t: Trading,
    unit: Decimal,
    d: Drt,
    owner: usize,
    o: OrderBrief,
    base: Decimal,
    quote: Decimal,
) -> Round<Swapping> {
    let (paid, received) = match d {
        Drt::Buy => (quote, base),
        Drt::Sell => (base, quote),
    };
    let remaining = decimal_difference(s.remaining, paid);
    let left = decimal_difference(o.src_volume, received);
    if remaining is None || left is None {
        Round::Stuck
    } else {
        let done = match d {
            Drt::Buy => Some((left->0).val() <= unit.val()),
            Drt::Sell => buy_spent(t.pair, unit, left->0, o.price),
        };
        let n = Swapping {
            t: t.with_price(o.price.truncated(t.pair.precision as nat)),
            transfers: s.transfers + swap_transfers(t.pair, d, owner, o.id, paid, received),
            closes: s.closes,
            remaining: remaining->0,
        };
        if done is None {
            Round::Stuck
        } else if done->0 {
            Round::Next(n.closing(o.id))
        } else if !progress(s.remaining, remaining->0, o.src_volume, left->0) {
            Round::Stuck
        } else {
            Round::Next(
                Swapping {
                    t: n.t.with_book(n.t.pair.book.with_volume(o.id, left->0, o.dst_volume)),
                    ..n
                },
            )
        }
    }
}

/// What a market order can still spend and the orders of the book can.
pub open spec fn swap_potential(s: Swapping) -> nat {
    s.t.pair.book.potential() + spendable(s.remaining)
}

/// Whether a market order has come closer to its end.
pub open spec fn swap_smaller(a: Swapping, b: Swapping) -> bool {
    ||| a.t.pair.book.count() < b.t.pair.book.count()
    ||| (a.t.pair.book.count() == b.t.pair.book.count() && swap_potential(a) < swap_potential(b))
}

/// Trading a market order until it is spent or nobody is left to trade with. `None` where a
/// number overflows or a round lowers nothing.
pub open spec fn swap_all(
    s: Swapping,
    precision: u8,
    unit: Decimal,
    d: Drt,
    owner: usize,
) -> Option<Swapping>
    decreases s.t.pair.book.count(), swap_potential(s),
{
    match swap_round(s, precision, unit, d, owner) {
        Round::Done => Some(s),
        Round::Stuck => None,
        Round::Next(n) => if swap_smaller(n, s) {
            swap_all(n, precision, unit, d, owner)
        } else {
            None
        },
    }
}

/// A market order from its start.
pub open spec fn swapped(
    t: Trading,
    precision: u8,
    d: Drt,
    owner: usize,
    volume: Decimal,
) -> Option<Swapping> {
    match Decimal::unit_of(t.pair.precision) {
        Some(unit) => swap_all(
            Swapping { t, transfers: Seq::empty(), closes: Seq::empty(), remaining: volume },
            precision,
            unit,
            d,
            owner,
        ),
        None => None,
    }
}

// ---- several market orders of one side at once ----

/// How many rounds a batch of market orders may take.
pub const BATCH_ROUNDS: u32 = 499;

/// The state of a batch of market orders: the pair, what was traded so far, the orders to close,
/// and what each of them has left to spend.
#[verifier::ext_equal]
pub struct Batch {
    pub t: Trading,
    pub transfers: Seq<SwapTransfer>,
    pub closes: Seq<usize>,
    pub remain: Seq<Decimal>,
}

impl Batch {
    /// Cancels an order and notes that the engine is to close it.
    pub open spec fn closing(self, id: usize) -> Batch {
        Batch {
            t: self.t.with_book(self.t.pair.book.cancelled(id)),
            closes: self.closes.push(id),
            ..self
        }
    }
}

/// The sum of volumes.
pub open spec fn total_of(v: Seq<Decimal>) -> Option<Decimal>
    decreases v.len(),
{
    if v.len() == 0 {
        Some(Decimal::of(0, 0))
    } else {
        opt_sum(total_of(v.drop_last()), Some(v.last()))
    }
}

/// How much the market orders can spend on an order, out of what they have in all.
pub open spec fn available(d: Drt, o: OrderBrief, total: Decimal) -> Option<Decimal> {
    opt_least(
        match d {
            Drt::Buy => opt_product(Some(o.src_volume), Some(o.price)),
            Drt::Sell => decimal_quotient(o.src_volume, o.price),
        },
        Some(total),
    )
}

/// The part of what is available that falls to a market order with `r` left to spend.
pub open spec fn exact_share(avail: Decimal, r: Decimal, total: Decimal) -> Option<Decimal> {
    opt_quotient(opt_product(Some(avail), Some(r)), Some(total))
}

/// The shares of the first `k` market orders, cut off at the pair's precision and without those
/// that are nothing, and their sum.
pub open spec fn allocations(
    p: PairV,
    avail: Decimal,
    total: Decimal,
    remain: Seq<Decimal>,
    k: nat,
) -> Option<(Seq<(usize, Decimal)>, Decimal)>
    decreases k,
{
    if k == 0 {
        Some((Seq::empty(), Decimal::of(0, 0)))
    } else {
        let prev = allocations(p, avail, total, remain, (k - 1) as nat);
        let r = remain[k - 1];
        if prev is None || r.val() <= epsilon().val() {
            prev
        } else {
            match p.round(exact_share(avail, r, total)) {
                Some(share) => if share.val() <= epsilon().val() {
                    prev
                } else {
                    match decimal_sum((prev->0).1, share) {
                        Some(sum) => Some(((prev->0).0.push(((k - 1) as usize, share)), sum)),
                        None => None,
                    }
                },
                None => None,
            }
        }
    }
}

/// What each of the first `k` shares lost by the cut, with its position.
pub open spec fn losses(
    avail: Decimal,
    total: Decimal,
    remain: Seq<Decimal>,
    shares: Seq<(usize, Decimal)>,
    k: nat,
) -> Option<Seq<(usize, Decimal)>>
    decreases k,
{
    if k == 0 {
        Some(Seq::empty())
    } else {
        let prev = losses(avail, total, remain, shares, (k - 1) as nat);
        let loss = opt_difference(
            exact_share(avail, remain[shares[k - 1].0 as int], total),
            Some(shares[k - 1].1),
        );
        if prev is None || loss is None {
            None
        } else {
            Some((prev->0).push(((k - 1) as usize, loss->0)))
        }
    }
}

/// How many losses at the head of the sequence, the first `i` taken as given, are at least `x`.
pub open spec fn loss_rank(s: Seq<(usize, Decimal)>, x: Decimal, i: nat) -> nat
    decreases s.len() - i,
{
    if i < s.len() && s[i as int].1.val() >= x.val() {
        loss_rank(s, x, i + 1)
    } else {
        i
    }
}

/// Losses by falling size, those of one size in their order.
pub open spec fn by_loss(s: Seq<(usize, Decimal)>) -> Seq<(usize, Decimal)>
    decreases s.len(),
{
    if s.len() == 0 {
        s
    } else {
        let head = by_loss(s.drop_last());
        head.insert(loss_rank(head, s.last().1, 0) as int, s.last())
    }
}

/// The shares with one unit more for each in the given order, as long as `rem` lasts.
pub open spec fn topped_up(
    shares: Seq<(usize, Decimal)>,
    order: Seq<(usize, Decimal)>,
    i: nat,
    rem: Decimal,
    unit: Decimal,
) -> Option<Seq<(usize, Decimal)>>
    decreases order.len() - i,
{
    if i >= order.len() || rem.val() < unit.val() {
        Some(shares)
    } else {
        let j = order[i as int].0 as int;
        let more = decimal_sum(shares[j].1, unit);
        let rest = decimal_difference(rem, unit);
        if more is None || rest is None {
            None
        } else {
            topped_up(shares.update(j, (shares[j].0, more->0)), order, i + 1, rest->0, unit)
        }
    }
}

/// How what is available is shared out by the largest remainder.
pub open spec fn shared_out(
    p: PairV,
    unit: Decimal,
    avail: Decimal,
    total: Decimal,
    remain: Seq<Decimal>,
) -> Option<Seq<(usize, Decimal)>> {
    match allocations(p, avail, total, remain, remain.len()) {
        Some((shares, sum)) => if shares.len() == 0 {
            Some(shares)
        } else {
            match decimal_difference(avail, sum) {
                Some(rem) => if rem.val() >= unit.val() {
                    match losses(avail, total, remain, shares, shares.len()) {
                        Some(l) => topped_up(shares, by_loss(l), 0, rem, unit),
                        None => None,
                    }
                } else {
                    Some(shares)
                },
                None => None,
            }
        },
        None => None,
    }
}

/// The trades of the shares from `i` on with an order of which `consumed` is gone.
pub open spec fn paid_out(
    b: Batch,
    consumed: Decimal,
    precision: u8,
    d: Drt,
    o: OrderBrief,
    swaps: Seq<(usize, Decimal)>,
    shares: Seq<(usize, Decimal)>,
    i: nat,
) -> Option<(Batch, Decimal)>
    decreases shares.len() - i,
{
    if i >= shares.len() {
        Some((b, consumed))
    } else {
        let j = shares[i as int].0 as int;
        let paid = shares[i as int].1;
        let owner = swaps[j].0;
        let worth = match d {
            Drt::Buy => decimal_quotient(paid, o.price),
            Drt::Sell => opt_product(Some(paid), Some(o.price)),
        };
        let received = b.t.pair.round(
            opt_least(worth, decimal_difference(o.src_volume, consumed)),
        );
        if received is None {
            None
        } else if (received->0).val() <= epsilon().val() {
            paid_out(b, consumed, precision, d, o, swaps, shares, i + 1)
        } else {
            let (base, quote) = match d {
                Drt::Buy => (received->0, paid),
                Drt::Sell => (paid, received->0),
            };
            let t = swap_trade(b.t, precision, d, owner, o, base, quote);
            let rest = decimal_difference(b.remain[j], paid);
            let gone = decimal_sum(consumed, received->0);
            if t is None || rest is None || gone is None {
                None
            } else {
                paid_out(
                    Batch {
                        t: t->0,
                        transfers: b.transfers + swap_transfers(
                            b.t.pair,
                            d,
                            owner,
                            o.id,
                            paid,
                            received->0,
                        ),
                        closes: b.closes,
                        remain: b.remain.update(j, rest->0),
                    },
                    gone->0,
                    precision,
                    d,
                    o,
                    swaps,
                    shares,
                    i + 1,
                )
            }
        }
    }
}

/// What becomes of an order of which `consumed` is gone.
pub open spec fn batch_settle(
    b: Batch,
    unit: Decimal,
    d: Drt,
    o: OrderBrief,
    consumed: Decimal,
) -> Round<Batch> {
    let n = Batch { t: b.t.with_price(o.price.truncated(b.t.pair.precision as nat)), ..b };
    let left = decimal_difference(o.src_volume, consumed);
    let next = b.t.pair.round(opt_quotient(left, Some(o.price)));
    if left is None || (d == Drt::Sell && next is None) {
        Round::Stuck
    } else if (left->0).val() <= unit.val() || (d == Drt::Sell && (next->0).val() < unit.val()) {
        Round::Next(n.closing(o.id))
    } else {
        let got = opt_sum(
            Some(o.dst_volume),
            match d {
                Drt::Buy => opt_product(Some(o.price), Some(consumed)),
                Drt::Sell => decimal_quotient(consumed, o.price),
            },
        );
        if got is None {
            Round::Stuck
        } else {
            Round::Next(
                Batch {
                    t: n.t.with_book(n.t.pair.book.with_volume(o.id, left->0, got->0)),
                    ..n
                },
            )
        }
    }
}

/// One round of a batch: the market orders share the best order of the other side.
pub open spec fn batch_round(
    b: Batch,
    total: Decimal,
    precision: u8,
    unit: Decimal,
    d: Drt,
    swaps: Seq<(usize, Decimal)>,
) -> Round<Batch> {
    let p = b.t.pair;
    let q = p.book.queue(opposite(d));
    let eps = epsilon().val();
    if q.len() == 0 {
        Round::Done
    } else {
        let o = q[0];
        let avail = available(d, o, total);
        if o.price.val() <= eps {
            Round::Next(b.closing(o.id))
        } else if avail is None {
            Round::Stuck
        } else if (avail->0).val() <= eps {
            Round::Next(b.closing(o.id))
        } else {
            match shared_out(p, unit, avail->0, total, b.remain) {
                Some(shares) => if shares.len() == 0 {
                    Round::Next(b.closing(o.id))
                } else {
                    match paid_out(b, Decimal::of(0, 0), precision, d, o, swaps, shares, 0) {
                        Some((n, consumed)) => if consumed.val() <= eps {
                            Round::Next(n.closing(o.id))
                        } else {
                            batch_settle(n, unit, d, o, consumed)
                        },
                        None => Round::Stuck,
                    }
                },
                None => Round::Stuck,
            }
        }
    }
}

/// Trading a batch until it is spent, nobody is left to trade with, or `rounds` have passed.
pub open spec fn batch_all(
    b: Batch,
    precision: u8,
    unit: Decimal,
    d: Drt,
    swaps: Seq<(usize, Decimal)>,
    rounds: nat,
) -> Option<Batch>
    decreases rounds,
{
    match total_of(b.remain) {
        Some(total) => if total.val() <= epsilon().val() || rounds == 0 {
            Some(b)
        } else {
            match batch_round(b, total, precision, unit, d, swaps) {
                Round::Done => Some(b),
                Round::Stuck => None,
                Round::Next(n) => batch_all(n, precision, unit, d, swaps, (rounds - 1) as nat),
            }
        },
        None => None,
    }
}

/// A batch of market orders from its start.
pub open spec fn batched(
    t: Trading,
    precision: u8,
    d: Drt,
    swaps: Seq<(usize, Decimal)>,
) -> Option<Batch> {
    match Decimal::unit_of(t.pair.precision) {
        Some(unit) => batch_all(
            Batch {
                t,
                transfers: Seq::empty(),
                closes: Seq::empty(),
                remain: swaps.map_values(|s: (usize, Decimal)| s.1),
            },
            precision,
            unit,
            d,
            swaps,
            BATCH_ROUNDS as nat,
        ),
        None => None,
    }
}

/// A round of matching keeps the book well formed and makes it smaller.
pub proof fn lemma_match_round(m: Matching, precision: u8, unit: Decimal)
    requires
        m.t.pair.book.wf(),
        unit.val() > 0,
        match_round(m, precision, unit) is Next,
    ensures
        match_round(m, precision, unit)->Next_0.t.pair.book.wf(),
        smaller(match_round(m, precision, unit)->Next_0.t.pair.book, m.t.pair.book),
{
    let b = m.t.pair.book;
    b.lemma_cancel_best(Drt::Buy);
    b.lemma_cancel_best(Drt::Sell);
    let buy = b.buys[0];
    let sell = b.sells[0];
    let n = match_round(m, precision, unit)->Next_0;
    let eps = epsilon().val();
    if buy.price.val() <= eps || sell.price.val() <= eps {
    } else {
        let p = m.t.pair;
        let price = trade_price(buy, sell);
        let base = p.round(
            opt_least(opt_quotient(Some(buy.src_volume), price), Some(sell.src_volume)),
        );
        let quote = p.round(opt_least(opt_product(base, price), Some(buy.src_volume)));
        if (base->0).val() <= eps {
        } else {
            let t = limit_trade(m, precision, buy, sell, price->0, base->0, quote->0)->0;
            assert(t.pair.book == b);
            let buy_left = decimal_difference(buy.src_volume, quote->0)->0;
            let sell_left = decimal_difference(sell.src_volume, base->0)->0;
            let buy_done = buy_spent(t.pair, unit, buy_left, buy.price)->0;
            let buy_got = decimal_sum(buy.dst_volume, base->0)->0;
            let sell_got = decimal_sum(sell.dst_volume, quote->0)->0;
            let t1 = settled(t, buy_done, buy.id, buy_left, buy_got);
            b.lemma_update_best(Drt::Buy, buy_left, buy_got);
            let b1 = t1.pair.book;
            assert(b1.sells == b.sells);
            b1.lemma_cancel_best(Drt::Sell);
            b1.lemma_update_best(Drt::Sell, sell_left, sell_got);
        }
    }
}

/// A round of a market order keeps the book well formed and brings the order closer to its end.
pub proof fn lemma_swap_round(s: Swapping, precision: u8, unit: Decimal, d: Drt, owner: usize)
    requires
        s.t.pair.book.wf(),
        unit.val() > 0,
        epsilon().val() > 0,
        swap_round(s, precision, unit, d, owner) is Next,
    ensures
        swap_round(s, precision, unit, d, owner)->Next_0.t.pair.book.wf(),
        swap_smaller(swap_round(s, precision, unit, d, owner)->Next_0, s),
{
    let b = s.t.pair.book;
    b.lemma_cancel_best(opposite(d));
    let o = b.queue(opposite(d))[0];
    let p = s.t.pair;
    let base = fill_base(p, d, s.remaining, o);
    let quote = fill_quote(p, d, s.remaining, o, base);
    if o.price.val() > epsilon().val() && (base->0).val() > epsilon().val() {
        let received = match d {
            Drt::Buy => base->0,
            Drt::Sell => quote->0,
        };
        let left = decimal_difference(o.src_volume, received)->0;
        b.lemma_update_best(opposite(d), left, o.dst_volume);
    }
}

/// The unit of a precision and the bound under which nothing is traded are positive.
pub proof fn lemma_units(places: u8)
    ensures
        epsilon().val() > 0,
        Decimal::unit_of(places) is Some ==> (Decimal::unit_of(places)->0).val() > 0,
{
    Decimal::lemma_of(1, 12);
    if places <= crate::decimal::MAX_SCALE {
        Decimal::lemma_of(1, places as nat);
    }
}

} // verus!
