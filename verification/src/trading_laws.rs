//! What holds of trading, whatever the orders.

use crate::decimal::{decimal_quotient, decimal_sum, opt_least, opt_product, Decimal};
use crate::fee::{side_fee, FeeCtx, FeeLogic};
use crate::fee_presets::TakerMakerFee;
use crate::matching::{
    allocations, batch_all, batch_round, batched, by_loss, epsilon, fill_base, fill_quote,
    lemma_match_round, lemma_swap_round, lemma_units, loss_rank, match_all, match_round, matched,
    opposite, paid_out, swap_all, swap_round, swap_trade, swapped, topped_up, trade_price, Batch,
    Matching, PairV, Round, Swapping, Trading,
};
use crate::node::{Drt, SwapTransfer};
use crate::order::OrderBrief;
use crate::order_book::{before, sorted, BookV};
use vstd::prelude::*;

verus! {

// ---- limit orders ----

impl BookV {
    /// Whether the best two orders would trade.
    pub open spec fn crossed(self) -> bool {
        self.buys.len() > 0 && self.sells.len() > 0 && self.buys[0].price.val()
            >= self.sells[0].price.val()
    }
}

/// Matching ends with the best two orders apart.
proof fn lemma_match_all_uncrossed(m: Matching, precision: u8, unit: Decimal)
    requires
        match_all(m, precision, unit) is Some,
    ensures
        !(match_all(m, precision, unit)->0).t.pair.book.crossed(),
    decreases m.t.pair.book.count(), m.t.pair.book.potential(),
{
    match match_round(m, precision, unit) {
        Round::Next(n) => {
            lemma_match_all_uncrossed(n, precision, unit);
        },
        _ => {},
    }
}

/// After matching, no buy order has a price at which a sell order would trade.
pub proof fn law_matched_uncrossed(t: Trading, precision: u8)
    requires
        matched(t, precision) is Some,
    ensures
        !(matched(t, precision)->0).pair.book.crossed(),
{
    lemma_match_all_uncrossed(
        Matching { t, price: t.pair.price },
        precision,
        Decimal::unit_of(t.pair.precision)->0,
    );
}

/// Matching keeps a book in order.
proof fn lemma_match_all_wf(m: Matching, precision: u8, unit: Decimal)
    requires
        m.t.pair.book.wf(),
        unit.val() > 0,
        match_all(m, precision, unit) is Some,
    ensures
        (match_all(m, precision, unit)->0).t.pair.book.wf(),
    decreases m.t.pair.book.count(), m.t.pair.book.potential(),
{
    match match_round(m, precision, unit) {
        Round::Next(n) => {
            lemma_match_round(m, precision, unit);
            lemma_match_all_wf(n, precision, unit);
        },
        _ => {},
    }
}

/// After matching, both queues are in order.
pub proof fn law_matched_in_order(t: Trading, precision: u8)
    requires
        t.pair.book.wf(),
        matched(t, precision) is Some,
    ensures
        (matched(t, precision)->0).pair.book.wf(),
{
    lemma_units(t.pair.precision);
    lemma_match_all_wf(
        Matching { t, price: t.pair.price },
        precision,
        Decimal::unit_of(t.pair.precision)->0,
    );
}

/// Orders opened in different frames trade at the price of the earlier one, which suits both.
pub proof fn law_earlier_price(buy: OrderBrief, sell: OrderBrief)
    requires
        buy.price.val() >= sell.price.val(),
        buy.step_count_created != sell.step_count_created,
    ensures
        trade_price(buy, sell) == Some(
            if buy.step_count_created < sell.step_count_created {
                buy.price
            } else {
                sell.price
            },
        ),
        sell.price.val() <= (trade_price(buy, sell)->0).val() <= buy.price.val(),
{
}

/// Orders opened in one frame trade in the middle of their prices, which suits both, where the
/// middle is computed exactly.
pub proof fn law_middle_price(buy: OrderBrief, sell: OrderBrief)
    requires
        buy.price.val() >= sell.price.val(),
        buy.step_count_created == sell.step_count_created,
        decimal_sum(sell.price, buy.price) is Some,
        (decimal_sum(sell.price, buy.price)->0).val() == sell.price.val() + buy.price.val(),
        trade_price(buy, sell) is Some,
        2 * (trade_price(buy, sell)->0).val() == (decimal_sum(sell.price, buy.price)->0).val(),
    ensures
        sell.price.val() <= (trade_price(buy, sell)->0).val() <= buy.price.val(),
{
}

/// A number that is cut off at a precision stays below a bound that is not negative.
pub(crate) proof fn lemma_cut_off(v: Decimal, precision: u8)
    requires
        v.valid(),
    ensures
        v.val() >= 0 ==> 0 <= v.truncated(precision as nat).val() <= v.val(),
        v.val() <= 0 ==> v.truncated(precision as nat).val() <= 0,
{
    v.lemma_untruncated(precision as nat);
    if precision <= crate::decimal::MAX_SCALE {
        v.law_truncated(precision as nat);
    }
}

/// What two limit orders trade is no more than either of them has left to spend.
pub proof fn law_limit_volumes(p: PairV, buy: OrderBrief, sell: OrderBrief, price: Decimal)
    requires
        buy.src_volume.valid() && buy.src_volume.val() >= 0,
        sell.src_volume.valid() && sell.src_volume.val() >= 0,
    ensures
        limit_base(p, buy, sell, price) matches Some(v) ==> v.val() <= sell.src_volume.val(),
        limit_quote(p, buy, sell, price) matches Some(v) ==> v.val() <= buy.src_volume.val(),
{
    let q = opt_least(decimal_quotient(buy.src_volume, price), Some(sell.src_volume));
    buy.src_volume.lemma_quotient(price);
    if q is Some {
        lemma_cut_off(q->0, p.precision);
        (limit_base(p, buy, sell, price)->0).lemma_product(price);
        let w = opt_least(
            opt_product(limit_base(p, buy, sell, price), Some(price)),
            Some(buy.src_volume),
        );
        if w is Some {
            lemma_cut_off(w->0, p.precision);
        }
    }
}

/// How much of the base token two limit orders trade at a price.
pub open spec fn limit_base(p: PairV, buy: OrderBrief, sell: OrderBrief, price: Decimal) -> Option<
    Decimal,
> {
    p.round(opt_least(decimal_quotient(buy.src_volume, price), Some(sell.src_volume)))
}

/// How much of the quote token is paid for it.
pub open spec fn limit_quote(p: PairV, buy: OrderBrief, sell: OrderBrief, price: Decimal) -> Option<
    Decimal,
> {
    p.round(
        opt_least(
            opt_product(limit_base(p, buy, sell, price), Some(price)),
            Some(buy.src_volume),
        ),
    )
}

// ---- one market order ----

/// What a market order trades with an order is no more than it has left to spend, and no more
/// than the order has.
pub proof fn law_fill_volumes(p: PairV, d: Drt, remaining: Decimal, o: OrderBrief)
    requires
        remaining.valid() && remaining.val() >= 0,
        o.src_volume.valid() && o.src_volume.val() >= 0,
    ensures
        ({
            let base = fill_base(p, d, remaining, o);
            let quote = fill_quote(p, d, remaining, o, base);
            let (paid, received) = match d {
                Drt::Buy => (quote, base),
                Drt::Sell => (base, quote),
            };
            &&& paid is Some ==> (paid->0).val() <= remaining.val()
            &&& received is Some ==> (received->0).val() <= o.src_volume.val()
        }),
{
    let q = match d {
        Drt::Buy => opt_least(decimal_quotient(remaining, o.price), Some(o.src_volume)),
        Drt::Sell => opt_least(decimal_quotient(o.src_volume, o.price), Some(remaining)),
    };
    remaining.lemma_quotient(o.price);
    o.src_volume.lemma_quotient(o.price);
    if q is Some {
        lemma_cut_off(q->0, p.precision);
        (fill_base(p, d, remaining, o)->0).lemma_product(o.price);
        let w = opt_least(
            opt_product(fill_base(p, d, remaining, o), Some(o.price)),
            Some(
                match d {
                    Drt::Buy => remaining,
                    Drt::Sell => o.src_volume,
                },
            ),
        );
        if w is Some {
            lemma_cut_off(w->0, p.precision);
        }
    }
}

/// Whether transfers come in pairs: an owner pays a node in one token and receives the other
/// token from it.
pub open spec fn paired(p: PairV, d: Drt, owners: Set<usize>, transfers: Seq<SwapTransfer>) -> bool {
    &&& transfers.len() % 2 == 0
    &&& forall|k: int|
        0 <= k && 2 * k < transfers.len() ==> paired_at(p, d, owners, #[trigger] pair_of(
            transfers,
            k,
        ))
}

/// Two transfers that follow each other.
pub open spec fn pair_of(transfers: Seq<SwapTransfer>, k: int) -> (SwapTransfer, SwapTransfer) {
    (transfers[2 * k], transfers[2 * k + 1])
}

/// Whether an owner pays a node in one token and receives the other token from it.
pub open spec fn paired_at(
    p: PairV,
    d: Drt,
    owners: Set<usize>,
    t: (SwapTransfer, SwapTransfer),
) -> bool {
    &&& owners.contains(t.0.src_id)
    &&& t.1.dst_id == t.0.src_id
    &&& t.1.src_id == t.0.dst_id
    &&& t.0.token == (if d == Drt::Buy { p.quote_token } else { p.base_token })
    &&& t.1.token == (if d == Drt::Buy { p.base_token } else { p.quote_token })
}

/// Two more transfers of one trade keep the transfers in pairs.
proof fn lemma_paired_more(
    p: PairV,
    d: Drt,
    owners: Set<usize>,
    transfers: Seq<SwapTransfer>,
    more: Seq<SwapTransfer>,
)
    requires
        paired(p, d, owners, transfers),
        more.len() == 2,
        paired_at(p, d, owners, (more[0], more[1])),
    ensures
        paired(p, d, owners, transfers + more),
{
    let all = transfers + more;
    assert forall|k: int| 0 <= k && 2 * k < all.len() implies paired_at(
        p,
        d,
        owners,
        #[trigger] pair_of(all, k),
    ) by {
        if 2 * k < transfers.len() {
            assert(pair_of(all, k) == pair_of(transfers, k));
        } else {
            assert(pair_of(all, k) == (more[0], more[1]));
        }
    }
}

/// What every round of a market order keeps.
proof fn lemma_swap_all(s: Swapping, precision: u8, unit: Decimal, d: Drt, owner: usize)
    requires
        s.t.pair.book.wf(),
        unit.val() > 0,
        swap_all(s, precision, unit, d, owner) is Some,
        paired(s.t.pair, d, set![owner], s.transfers),
        s.t.pair.logs.len() <= s.t.pair.max_tra_log_length,
    ensures
        ({
            let n = swap_all(s, precision, unit, d, owner)->0;
            &&& n.remaining.val() <= epsilon().val() || n.t.pair.book.queue(opposite(d)).len() == 0
            &&& n.t.pair.book.wf()
            &&& n.t.pair.book.queue(d) == s.t.pair.book.queue(d)
            &&& n.t.pair.quote_token == s.t.pair.quote_token
            &&& n.t.pair.base_token == s.t.pair.base_token
            &&& paired(n.t.pair, d, set![owner], n.transfers)
            &&& n.t.pair.max_tra_log_length == s.t.pair.max_tra_log_length
            &&& n.t.pair.logs.len() <= n.t.pair.max_tra_log_length
        }),
    decreases s.t.pair.book.count(), crate::matching::swap_potential(s),
{
    match swap_round(s, precision, unit, d, owner) {
        Round::Next(n) => {
            lemma_units(0);
            lemma_swap_round(s, precision, unit, d, owner);
            lemma_swap_round_keeps(s, precision, unit, d, owner);
            lemma_swap_all(n, precision, unit, d, owner);
        },
        _ => {},
    }
}

/// What one round of a market order keeps.
proof fn lemma_swap_round_keeps(s: Swapping, precision: u8, unit: Decimal, d: Drt, owner: usize)
    requires
        s.t.pair.book.wf(),
        paired(s.t.pair, d, set![owner], s.transfers),
        s.t.pair.logs.len() <= s.t.pair.max_tra_log_length,
        swap_round(s, precision, unit, d, owner) is Next,
    ensures
        ({
            let n = swap_round(s, precision, unit, d, owner)->Next_0;
            &&& n.t.pair.book.queue(d) == s.t.pair.book.queue(d)
            &&& n.t.pair.quote_token == s.t.pair.quote_token
            &&& n.t.pair.base_token == s.t.pair.base_token
            &&& paired(n.t.pair, d, set![owner], n.transfers)
            &&& n.t.pair.max_tra_log_length == s.t.pair.max_tra_log_length
            &&& n.t.pair.logs.len() <= n.t.pair.max_tra_log_length
        }),
{
    let b = s.t.pair.book;
    let e = opposite(d);
    b.lemma_cancel_best(e);
    let o = b.queue(e)[0];
    let p = s.t.pair;
    let base = fill_base(p, d, s.remaining, o);
    let quote = fill_quote(p, d, s.remaining, o, base);
    if o.price.val() > epsilon().val() && (base->0).val() > epsilon().val() {
        let (paid, received) = match d {
            Drt::Buy => (quote->0, base->0),
            Drt::Sell => (base->0, quote->0),
        };
        let left = crate::decimal::decimal_difference(o.src_volume, received)->0;
        b.lemma_update_best(e, left, o.dst_volume);
        lemma_paired_more(
            p,
            d,
            set![owner],
            s.transfers,
            crate::matching::swap_transfers(p, d, owner, o.id, paid, received),
        );
    }
}

/// A market order ends when it is spent or nobody is left to trade with. It trades with the other
/// side only, leaves both queues in order, and all its transfers are payments of its owner, each
/// followed by what was bought.
pub proof fn law_market_order(t: Trading, precision: u8, d: Drt, owner: usize, volume: Decimal)
    requires
        t.pair.book.wf(),
        t.pair.logs.len() <= t.pair.max_tra_log_length,
        swapped(t, precision, d, owner, volume) is Some,
    ensures
        ({
            let n = swapped(t, precision, d, owner, volume)->0;
            &&& n.remaining.val() <= epsilon().val() || n.t.pair.book.queue(opposite(d)).len() == 0
            &&& n.t.pair.book.wf()
            &&& n.t.pair.book.queue(d) == t.pair.book.queue(d)
            &&& paired(t.pair, d, set![owner], n.transfers)
            &&& n.t.pair.logs.len() <= t.pair.max_tra_log_length
        }),
{
    lemma_units(t.pair.precision);
    let unit = Decimal::unit_of(t.pair.precision)->0;
    let s = Swapping { t, transfers: Seq::empty(), closes: Seq::empty(), remaining: volume };
    lemma_swap_all(s, precision, unit, d, owner);
    let n = swapped(t, precision, d, owner, volume)->0;
    assert forall|k: int| 0 <= k && 2 * k < n.transfers.len() implies paired_at(
        t.pair,
        d,
        set![owner],
        #[trigger] pair_of(n.transfers, k),
    ) by {
        assert(paired_at(n.t.pair, d, set![owner], pair_of(n.transfers, k)));
    }
}

/// A market order trades with the best order of the other side before any other.
pub proof fn law_best_order_first(s: Swapping, precision: u8, unit: Decimal, d: Drt, owner: usize)
    requires
        s.t.pair.book.wf(),
        swap_round(s, precision, unit, d, owner) is Next,
    ensures
        ({
            let q = s.t.pair.book.queue(opposite(d));
            let n = swap_round(s, precision, unit, d, owner)->Next_0;
            &&& n.t.pair.book.queue(opposite(d)) == q.drop_first() || n.t.pair.book.queue(
                opposite(d),
            ).drop_first() == q.drop_first()
            &&& n.transfers.len() > s.transfers.len() ==> n.transfers.last().src_id == q[0].id
        }),
{
    let b = s.t.pair.book;
    let e = opposite(d);
    b.lemma_cancel_best(e);
    let q = b.queue(e);
    let o = q[0];
    let p = s.t.pair;
    let base = fill_base(p, d, s.remaining, o);
    let quote = fill_quote(p, d, s.remaining, o, base);
    if o.price.val() > epsilon().val() && (base->0).val() > epsilon().val() {
        let received = match d {
            Drt::Buy => base->0,
            Drt::Sell => quote->0,
        };
        let left = crate::decimal::decimal_difference(o.src_volume, received)->0;
        b.lemma_update_best(e, left, o.dst_volume);
        let u = OrderBrief { src_volume: left, dst_volume: o.dst_volume, ..o };
        assert(q.update(0, u).drop_first() =~= q.drop_first());
    }
}

/// The order that a trade of a market order was made with.
pub open spec fn maker_of(transfers: Seq<SwapTransfer>, k: int) -> usize {
    transfers[2 * k].dst_id
}

/// Whether a price is no better than another one for a market order.
pub open spec fn no_better(d: Drt, price: Decimal, than: Decimal) -> bool {
    match d {
        Drt::Buy => price.val() >= than.val(),
        Drt::Sell => price.val() <= than.val(),
    }
}

/// Whether the trades of a market order were made with orders of a book's other side, the later
/// ones at no better prices than the earlier ones.
pub open spec fn never_improving(book: BookV, d: Drt, transfers: Seq<SwapTransfer>) -> bool {
    &&& transfers.len() % 2 == 0
    &&& forall|k: int|
        0 <= k && 2 * k < transfers.len() ==> book.index.dom().contains(
            #[trigger] maker_of(transfers, k),
        ) && book.index[maker_of(transfers, k)].direction == opposite(d)
    &&& forall|j: int, k: int|
        0 <= j <= k && 2 * k < transfers.len() ==> no_better(
            d,
            book.index[#[trigger] maker_of(transfers, k)].price,
            book.index[#[trigger] maker_of(transfers, j)].price,
        )
}

/// Whether the orders that are left are known to a book too, and no better than those that were
/// traded with.
spec fn worse_left(book: BookV, left: BookV, d: Drt, transfers: Seq<SwapTransfer>) -> bool {
    &&& forall|id: usize| #[trigger]
        left.index.dom().contains(id) ==> book.index.dom().contains(id) && book.index[id]
            == left.index[id]
    &&& forall|i: int, k: int|
        0 <= i < left.queue(opposite(d)).len() && 0 <= k && 2 * k < transfers.len() ==> no_better(
            d,
            (#[trigger] left.queue(opposite(d))[i]).price,
            book.index[#[trigger] maker_of(transfers, k)].price,
        )
}

/// What one round of a market order does to the book and to the transfers.
proof fn lemma_swap_round_shape(s: Swapping, precision: u8, unit: Decimal, d: Drt, owner: usize)
    requires
        s.t.pair.book.wf(),
        swap_round(s, precision, unit, d, owner) is Next,
    ensures
        ({
            let n = swap_round(s, precision, unit, d, owner)->Next_0;
            let b = s.t.pair.book;
            let q = b.queue(opposite(d));
            let rest = n.t.pair.book.queue(opposite(d));
            &&& q.len() > 0
            &&& n.t.pair.book.index == b.index || n.t.pair.book.index == b.index.remove(q[0].id)
            &&& rest == q.drop_first() || (rest.len() == q.len() && rest[0].price == q[0].price
                && rest.drop_first() == q.drop_first())
            &&& n.transfers == s.transfers || (n.transfers.len() == s.transfers.len() + 2
                && n.transfers.take(s.transfers.len() as int) == s.transfers
                && n.transfers[s.transfers.len() as int].dst_id == q[0].id)
        }),
{
    let n = swap_round(s, precision, unit, d, owner)->Next_0;
    let b = s.t.pair.book;
    let e = opposite(d);
    let q = b.queue(e);
    let o = q[0];
    let p = s.t.pair;
    b.lemma_cancel_best(e);
    let base = fill_base(p, d, s.remaining, o);
    let quote = fill_quote(p, d, s.remaining, o, base);
    if o.price.val() > epsilon().val() && (base->0).val() > epsilon().val() {
        let received = match d {
            Drt::Buy => base->0,
            Drt::Sell => quote->0,
        };
        let left = crate::decimal::decimal_difference(o.src_volume, received)->0;
        b.lemma_update_best(e, left, o.dst_volume);
        let u = OrderBrief { src_volume: left, dst_volume: o.dst_volume, ..o };
        assert(q.update(0, u).drop_first() =~= q.drop_first());
        assert(n.transfers.take(s.transfers.len() as int) =~= s.transfers);
    }
}

/// A trade with the best order that is left is at no better price than those before it, and
/// leaves no better order.
proof fn lemma_worse_step(
    book: BookV,
    left: BookV,
    next: BookV,
    d: Drt,
    transfers: Seq<SwapTransfer>,
    more: Seq<SwapTransfer>,
)
    requires
        left.wf(),
        never_improving(book, d, transfers),
        worse_left(book, left, d, transfers),
        left.queue(opposite(d)).len() > 0,
        next.index == left.index || next.index == left.index.remove(
            left.queue(opposite(d))[0].id,
        ),
        next.queue(opposite(d)) == left.queue(opposite(d)).drop_first() || (next.queue(
            opposite(d),
        ).len() == left.queue(opposite(d)).len() && next.queue(opposite(d))[0].price
            == left.queue(opposite(d))[0].price && next.queue(opposite(d)).drop_first()
            == left.queue(opposite(d)).drop_first()),
        more == transfers || (more.len() == transfers.len() + 2 && more.take(
            transfers.len() as int,
        ) == transfers && more[transfers.len() as int].dst_id == left.queue(opposite(d))[0].id),
    ensures
        never_improving(book, d, more),
        worse_left(book, next, d, more),
{
    let e = opposite(d);
    let q = left.queue(e);
    let rest = next.queue(e);
    let o = q[0];
    assert(left.indexed(e));
    assert(sorted(q, e));
    assert(q[0] == o);
    assert(left.index.dom().contains(o.id));
    let m = transfers.len() as int / 2;
    assert forall|k: int| 0 <= k < m implies #[trigger] maker_of(more, k) == maker_of(
        transfers,
        k,
    ) by {
        assert(more.take(transfers.len() as int)[2 * k] == more[2 * k]);
    }
    assert forall|i: int| 0 <= i < rest.len() implies exists|x: int|
        0 <= x < q.len() && q[x].price == (#[trigger] rest[i]).price by {
        if rest == q.drop_first() {
            assert(q[i + 1].price == rest[i].price);
        } else if i == 0 {
            assert(q[0].price == rest[0].price);
        } else {
            assert(rest.drop_first()[i - 1] == rest[i]);
            assert(q.drop_first()[i - 1] == q[i]);
            assert(q[i].price == rest[i].price);
        }
    }
    assert forall|i: int| 0 <= i < q.len() implies no_better(
        d,
        (#[trigger] q[i]).price,
        o.price,
    ) by {
        if i > 0 {
            assert(before(
                e,
                q[0].price,
                q[0].step_count_created,
                q[0].id,
                q[i].price,
                q[i].step_count_created,
                q[i].id,
            ));
        }
    }
    assert forall|k: int| 0 <= k && 2 * k < more.len() implies book.index.dom().contains(
        #[trigger] maker_of(more, k),
    ) && book.index[maker_of(more, k)].direction == e by {
        if k < m {
            assert(maker_of(more, k) == maker_of(transfers, k));
        }
    }
    assert forall|j: int, k: int| 0 <= j <= k && 2 * k < more.len() implies no_better(
        d,
        book.index[#[trigger] maker_of(more, k)].price,
        book.index[#[trigger] maker_of(more, j)].price,
    ) by {
        if j < m {
            assert(maker_of(more, j) == maker_of(transfers, j));
            if k < m {
                assert(maker_of(more, k) == maker_of(transfers, k));
            } else {
                assert(no_better(d, q[0].price, book.index[maker_of(transfers, j)].price));
            }
        }
    }
    assert forall|i: int, k: int|
        0 <= i < rest.len() && 0 <= k && 2 * k < more.len() implies no_better(
        d,
        (#[trigger] rest[i]).price,
        book.index[#[trigger] maker_of(more, k)].price,
    ) by {
        let x = choose|x: int| 0 <= x < q.len() && q[x].price == rest[i].price;
        if k < m {
            assert(maker_of(more, k) == maker_of(transfers, k));
            assert(no_better(d, q[x].price, book.index[maker_of(transfers, k)].price));
        } else {
            assert(no_better(d, q[x].price, o.price));
        }
    }
}

proof fn lemma_swap_all_worse(
    book: BookV,
    s: Swapping,
    precision: u8,
    unit: Decimal,
    d: Drt,
    owner: usize,
)
    requires
        s.t.pair.book.wf(),
        unit.val() > 0,
        never_improving(book, d, s.transfers),
        worse_left(book, s.t.pair.book, d, s.transfers),
        swap_all(s, precision, unit, d, owner) is Some,
    ensures
        never_improving(book, d, (swap_all(s, precision, unit, d, owner)->0).transfers),
    decreases s.t.pair.book.count(), crate::matching::swap_potential(s),
{
    match swap_round(s, precision, unit, d, owner) {
        Round::Next(n) => {
            lemma_units(0);
            lemma_swap_round(s, precision, unit, d, owner);
            lemma_swap_round_shape(s, precision, unit, d, owner);
            lemma_worse_step(book, s.t.pair.book, n.t.pair.book, d, s.transfers, n.transfers);
            lemma_swap_all_worse(book, n, precision, unit, d, owner);
        },
        _ => {},
    }
}

/// A market order trades with orders of the other side at prices that never improve along its
/// trades.
pub proof fn law_prices_never_improve(
    t: Trading,
    precision: u8,
    d: Drt,
    owner: usize,
    volume: Decimal,
)
    requires
        t.pair.book.wf(),
        swapped(t, precision, d, owner, volume) is Some,
    ensures
        never_improving(
            t.pair.book,
            d,
            (swapped(t, precision, d, owner, volume)->0).transfers,
        ),
{
    lemma_units(t.pair.precision);
    let unit = Decimal::unit_of(t.pair.precision)->0;
    let s = Swapping { t, transfers: Seq::empty(), closes: Seq::empty(), remaining: volume };
    lemma_swap_all_worse(t.pair.book, s, precision, unit, d, owner);
}

// ---- several market orders ----

/// Whether losses fall.
pub open spec fn falling(s: Seq<(usize, Decimal)>) -> bool {
    forall|i: int, j: int|
        0 <= i < j < s.len() ==> (#[trigger] s[i]).1.val() >= (#[trigger] s[j]).1.val()
}

/// The losses that are at least a given one stand before it.
proof fn lemma_loss_rank(s: Seq<(usize, Decimal)>, x: Decimal, i: nat)
    requires
        falling(s),
        i <= s.len(),
        forall|j: int| 0 <= j < i ==> (#[trigger] s[j]).1.val() >= x.val(),
    ensures
        i <= loss_rank(s, x, i) <= s.len(),
        forall|j: int| 0 <= j < loss_rank(s, x, i) ==> (#[trigger] s[j]).1.val() >= x.val(),
        forall|j: int|
            loss_rank(s, x, i) <= j < s.len() ==> (#[trigger] s[j]).1.val() < x.val(),
    decreases s.len() - i,
{
    if i < s.len() && s[i as int].1.val() >= x.val() {
        lemma_loss_rank(s, x, i + 1);
    }
}

/// Those who lost most by the cut come first, and nobody is lost or counted twice.
pub proof fn law_by_loss(s: Seq<(usize, Decimal)>)
    ensures
        falling(by_loss(s)),
        by_loss(s).len() == s.len(),
        by_loss(s).to_multiset() == s.to_multiset(),
    decreases s.len(),
{
    if s.len() > 0 {
        let head = by_loss(s.drop_last());
        law_by_loss(s.drop_last());
        lemma_loss_rank(head, s.last().1, 0);
        let r = loss_rank(head, s.last().1, 0) as int;
        let n = by_loss(s);
        assert forall|i: int, j: int| 0 <= i < j < n.len() implies (#[trigger] n[i]).1.val() >= (
        #[trigger] n[j]).1.val() by {
            let i0 = if i < r { i } else { i - 1 };
            let j0 = if j < r { j } else { j - 1 };
            if i != r {
                assert(n[i] == head[i0]);
            }
            if j != r {
                assert(n[j] == head[j0]);
            }
        }
        assert(s.drop_last().push(s.last()) =~= s);
        s.drop_last().to_multiset_ensures();
        head.to_multiset_ensures();
        vstd::seq_lib::lemma_multiset_commutative(head.take(r), seq![s.last()] + head.skip(r));
        lemma_insert_multiset(head, r, s.last());
    }
}

/// An element that is put in is one more of its kind.
proof fn lemma_insert_multiset<T>(s: Seq<T>, i: int, x: T)
    requires
        0 <= i <= s.len(),
    ensures
        s.insert(i, x).to_multiset() == s.to_multiset().insert(x),
{
    broadcast use vstd::seq_lib::group_to_multiset_ensures;

    let a = s.take(i);
    let b = s.skip(i);
    assert(s.insert(i, x) =~= a.push(x) + b);
    assert(s =~= a + b);
    vstd::seq_lib::lemma_multiset_commutative(a.push(x), b);
    vstd::seq_lib::lemma_multiset_commutative(a, b);
    assert(a.push(x).to_multiset() =~= a.to_multiset().insert(x));
    assert(s.insert(i, x).to_multiset() =~= s.to_multiset().insert(x));
}

/// Shares go to market orders in their order, each at most once.
pub proof fn law_shares_in_order(
    p: PairV,
    avail: Decimal,
    total: Decimal,
    remain: Seq<Decimal>,
    k: nat,
)
    requires
        k <= remain.len() <= usize::MAX,
        allocations(p, avail, total, remain, k) is Some,
    ensures
        ({
            let shares = (allocations(p, avail, total, remain, k)->0).0;
            &&& shares.len() <= k
            &&& forall|i: int| 0 <= i < shares.len() ==> (#[trigger] shares[i]).0 < k
            &&& forall|i: int, j: int|
                0 <= i < j < shares.len() ==> (#[trigger] shares[i]).0 < (#[trigger] shares[j]).0
            &&& forall|i: int|
                0 <= i < shares.len() ==> (#[trigger] shares[i]).1.val() > epsilon().val()
        }),
    decreases k,
{
    if k > 0 {
        law_shares_in_order(p, avail, total, remain, (k - 1) as nat);
    }
}

/// What is left over is handed out one unit at a time: whose the shares are does not change, and no
/// share grows by more than one unit.
pub proof fn law_topped_up(
    shares: Seq<(usize, Decimal)>,
    order: Seq<(usize, Decimal)>,
    i: nat,
    rem: Decimal,
    unit: Decimal,
)
    requires
        topped_up(shares, order, i, rem, unit) is Some,
        forall|j: int| 0 <= j < order.len() ==> (#[trigger] order[j]).0 < shares.len(),
        forall|j: int, k: int|
            0 <= j < k < order.len() ==> (#[trigger] order[j]).0 != (#[trigger] order[k]).0,
    ensures
        ({
            let n = topped_up(shares, order, i, rem, unit)->0;
            &&& n.len() == shares.len()
            &&& forall|j: int|
                0 <= j < n.len() ==> (#[trigger] n[j]).0 == shares[j].0 && (n[j].1 == shares[j].1
                    || decimal_sum(shares[j].1, unit) == Some(n[j].1))
            &&& forall|k: int|
                0 <= k < i && k < order.len() ==> n[(#[trigger] order[k]).0 as int]
                    == shares[order[k].0 as int]
        }),
    decreases order.len() - i,
{
    if i < order.len() && rem.val() >= unit.val() {
        let j = order[i as int].0 as int;
        let more = decimal_sum(shares[j].1, unit)->0;
        let rest = crate::decimal::decimal_difference(rem, unit)->0;
        let up = shares.update(j, (shares[j].0, more));
        law_topped_up(up, order, i + 1, rest, unit);
        let n = topped_up(shares, order, i, rem, unit)->0;
        assert(n[order[i as int].0 as int] == up[order[i as int].0 as int]);
        assert forall|k: int| 0 <= k < i && k < order.len() implies n[(
        #[trigger] order[k]).0 as int] == shares[order[k].0 as int] by {
            assert(order[k].0 != order[i as int].0);
        }
    }
}

/// The nodes that market orders are of.
pub open spec fn owners_of(swaps: Seq<(usize, Decimal)>) -> Set<usize> {
    swaps.map_values(|s: (usize, Decimal)| s.0).to_set()
}

/// What a batch keeps of the pair it began on.
pub open spec fn batch_ok(p: PairV, d: Drt, swaps: Seq<(usize, Decimal)>, b: Batch) -> bool {
    &&& b.t.pair.quote_token == p.quote_token
    &&& b.t.pair.base_token == p.base_token
    &&& b.t.pair.max_tra_log_length == p.max_tra_log_length
    &&& b.t.pair.logs.len() <= p.max_tra_log_length
    &&& b.t.pair.book.wf()
    &&& b.t.pair.book.queue(d) == p.book.queue(d)
    &&& b.remain.len() == swaps.len()
    &&& paired(p, d, owners_of(swaps), b.transfers)
}

/// Paying shares out keeps it.
proof fn lemma_paid_out_keeps(
    p: PairV,
    b: Batch,
    consumed: Decimal,
    precision: u8,
    d: Drt,
    o: OrderBrief,
    swaps: Seq<(usize, Decimal)>,
    shares: Seq<(usize, Decimal)>,
    i: nat,
)
    requires
        batch_ok(p, d, swaps, b),
        forall|j: int| 0 <= j < shares.len() ==> (#[trigger] shares[j]).0 < swaps.len(),
        paid_out(b, consumed, precision, d, o, swaps, shares, i) is Some,
    ensures
        ({
            let n = (paid_out(b, consumed, precision, d, o, swaps, shares, i)->0).0;
            &&& batch_ok(p, d, swaps, n)
            &&& n.t.pair.book == b.t.pair.book
        }),
    decreases shares.len() - i,
{
    if i < shares.len() {
        let j = shares[i as int].0 as int;
        let paid = shares[i as int].1;
        let owner = swaps[j].0;
        let worth = match d {
            Drt::Buy => decimal_quotient(paid, o.price),
            Drt::Sell => opt_product(Some(paid), Some(o.price)),
        };
        let received = b.t.pair.round(
            opt_least(worth, crate::decimal::decimal_difference(o.src_volume, consumed)),
        );
        if (received->0).val() <= epsilon().val() {
            lemma_paid_out_keeps(p, b, consumed, precision, d, o, swaps, shares, i + 1);
        } else {
            let (base, quote) = match d {
                Drt::Buy => (received->0, paid),
                Drt::Sell => (paid, received->0),
            };
            let t = swap_trade(b.t, precision, d, owner, o, base, quote)->0;
            let rest = crate::decimal::decimal_difference(b.remain[j], paid)->0;
            let gone = decimal_sum(consumed, received->0)->0;
            let more = crate::matching::swap_transfers(
                b.t.pair,
                d,
                owner,
                o.id,
                paid,
                received->0,
            );
            let n = Batch {
                t,
                transfers: b.transfers + more,
                closes: b.closes,
                remain: b.remain.update(j, rest),
            };
            let ids = swaps.map_values(|s: (usize, Decimal)| s.0);
            assert(ids[j] == owner);
            assert(ids.contains(owner));
            assert(owners_of(swaps).contains(owner));
            lemma_paired_more(p, d, owners_of(swaps), b.transfers, more);
            lemma_paid_out_keeps(p, n, gone, precision, d, o, swaps, shares, i + 1);
        }
    }
}

/// A round of a batch keeps it.
proof fn lemma_batch_round_keeps(
    p: PairV,
    b: Batch,
    total: Decimal,
    precision: u8,
    unit: Decimal,
    d: Drt,
    swaps: Seq<(usize, Decimal)>,
)
    requires
        batch_ok(p, d, swaps, b),
        swaps.len() <= usize::MAX,
        batch_round(b, total, precision, unit, d, swaps) is Next,
    ensures
        batch_ok(p, d, swaps, batch_round(b, total, precision, unit, d, swaps)->Next_0),
{
    let book = b.t.pair.book;
    let e = opposite(d);
    book.lemma_cancel_best(e);
    let o = book.queue(e)[0];
    let avail = crate::matching::available(d, o, total);
    if o.price.val() > epsilon().val() && (avail->0).val() > epsilon().val() {
        let shares = crate::matching::shared_out(b.t.pair, unit, avail->0, total, b.remain)->0;
        lemma_shared_out(b.t.pair, unit, avail->0, total, b.remain);
        if shares.len() > 0 {
            lemma_paid_out_keeps(p, b, Decimal::of(0, 0), precision, d, o, swaps, shares, 0);
            let (n, consumed) = paid_out(
                b,
                Decimal::of(0, 0),
                precision,
                d,
                o,
                swaps,
                shares,
                0,
            )->0;
            let left = crate::decimal::decimal_difference(o.src_volume, consumed);
            let got = crate::decimal::opt_sum(
                Some(o.dst_volume),
                match d {
                    Drt::Buy => opt_product(Some(o.price), Some(consumed)),
                    Drt::Sell => decimal_quotient(consumed, o.price),
                },
            );
            if left is Some && got is Some {
                book.lemma_update_best(e, left->0, got->0);
            }
        }
    }
}

/// What is shared out goes to market orders.
pub(crate) proof fn lemma_shared_out(
    p: PairV,
    unit: Decimal,
    avail: Decimal,
    total: Decimal,
    remain: Seq<Decimal>,
)
    requires
        remain.len() <= usize::MAX,
        crate::matching::shared_out(p, unit, avail, total, remain) is Some,
    ensures
        forall|j: int|
            0 <= j < (crate::matching::shared_out(p, unit, avail, total, remain)->0).len() ==> (
            #[trigger] (crate::matching::shared_out(p, unit, avail, total, remain)->0)[j]).0
                < remain.len(),
{
    law_shares_in_order(p, avail, total, remain, remain.len());
    let (shares, sum) = allocations(p, avail, total, remain, remain.len())->0;
    let rem = crate::decimal::decimal_difference(avail, sum);
    if shares.len() > 0 && rem is Some && (rem->0).val() >= unit.val() {
        let l = crate::matching::losses(avail, total, remain, shares, shares.len())->0;
        lemma_losses(avail, total, remain, shares, shares.len());
        law_by_loss(l);
        lemma_same_positions(l, by_loss(l));
        law_topped_up(shares, by_loss(l), 0, rem->0, unit);
    }
}

/// Losses are listed by position.
pub(crate) proof fn lemma_losses(
    avail: Decimal,
    total: Decimal,
    remain: Seq<Decimal>,
    shares: Seq<(usize, Decimal)>,
    k: nat,
)
    requires
        k <= shares.len() <= usize::MAX,
        crate::matching::losses(avail, total, remain, shares, k) is Some,
    ensures
        ({
            let l = crate::matching::losses(avail, total, remain, shares, k)->0;
            &&& l.len() == k
            &&& forall|i: int| 0 <= i < k ==> (#[trigger] l[i]).0 == i
        }),
    decreases k,
{
    if k > 0 {
        lemma_losses(avail, total, remain, shares, (k - 1) as nat);
    }
}

/// Another order of losses that are listed by position names every position once.
pub(crate) proof fn lemma_same_positions(l: Seq<(usize, Decimal)>, m: Seq<(usize, Decimal)>)
    requires
        forall|i: int| 0 <= i < l.len() ==> (#[trigger] l[i]).0 == i,
        m.to_multiset() == l.to_multiset(),
        m.len() == l.len(),
    ensures
        forall|i: int| 0 <= i < m.len() ==> (#[trigger] m[i]).0 < l.len(),
        forall|i: int, j: int|
            0 <= i < j < m.len() ==> (#[trigger] m[i]).0 != (#[trigger] m[j]).0,
{
    broadcast use vstd::seq_lib::group_to_multiset_ensures;

    assert(l.no_duplicates()) by {
        assert forall|i: int, j: int| 0 <= i < l.len() && 0 <= j < l.len() && i != j implies l[i]
            != l[j] by {
            assert(l[i].0 == i && l[j].0 == j);
        }
    }
    l.lemma_multiset_has_no_duplicates();
    m.lemma_multiset_has_no_duplicates_conv();
    assert forall|i: int| 0 <= i < m.len() implies l.contains(#[trigger] m[i]) by {
        assert(m.contains(m[i]));
        assert(m.to_multiset().count(m[i]) > 0);
        assert(l.to_multiset().count(m[i]) > 0);
    }
    assert forall|i: int| 0 <= i < m.len() implies (#[trigger] m[i]).0 < l.len() by {
        assert(l.contains(m[i]));
    }
    assert forall|i: int, j: int| 0 <= i < j < m.len() implies (#[trigger] m[i]).0 != (
    #[trigger] m[j]).0 by {
        assert(l.contains(m[i]));
        assert(l.contains(m[j]));
        assert(m[i] != m[j]);
    }
}

/// The rounds of a batch keep it.
proof fn lemma_batch_all_keeps(
    p: PairV,
    b: Batch,
    precision: u8,
    unit: Decimal,
    d: Drt,
    swaps: Seq<(usize, Decimal)>,
    rounds: nat,
)
    requires
        batch_ok(p, d, swaps, b),
        swaps.len() <= usize::MAX,
        batch_all(b, precision, unit, d, swaps, rounds) is Some,
    ensures
        batch_ok(p, d, swaps, batch_all(b, precision, unit, d, swaps, rounds)->0),
    decreases rounds,
{
    let total = crate::matching::total_of(b.remain)->0;
    if total.val() > epsilon().val() && rounds > 0 {
        match batch_round(b, total, precision, unit, d, swaps) {
            Round::Next(n) => {
                lemma_batch_round_keeps(p, b, total, precision, unit, d, swaps);
                lemma_batch_all_keeps(p, n, precision, unit, d, swaps, (rounds - 1) as nat);
            },
            _ => {},
        }
    }
}

/// Market orders that trade together trade with the other side only, leave both queues in order,
/// and all their transfers are payments of their owners, each followed by what was bought.
pub proof fn law_market_orders(t: Trading, precision: u8, d: Drt, swaps: Seq<(usize, Decimal)>)
    requires
        t.pair.book.wf(),
        t.pair.logs.len() <= t.pair.max_tra_log_length,
        swaps.len() <= usize::MAX,
        batched(t, precision, d, swaps) is Some,
    ensures
        ({
            let n = batched(t, precision, d, swaps)->0;
            &&& n.t.pair.book.wf()
            &&& n.t.pair.book.queue(d) == t.pair.book.queue(d)
            &&& paired(t.pair, d, owners_of(swaps), n.transfers)
            &&& n.t.pair.logs.len() <= t.pair.max_tra_log_length
        }),
{
    let b = Batch {
        t,
        transfers: Seq::empty(),
        closes: Seq::empty(),
        remain: swaps.map_values(|s: (usize, Decimal)| s.1),
    };
    lemma_batch_all_keeps(
        t.pair,
        b,
        precision,
        Decimal::unit_of(t.pair.precision)->0,
        d,
        swaps,
        crate::matching::BATCH_ROUNDS as nat,
    );
}

// ---- fees ----

/// A fee goes to its collector, is more than nothing, and is paid by the taker or the maker in the
/// token that they received.
pub proof fn law_fees(fee: TakerMakerFee, precision: u8, ctx: FeeCtx, i: int)
    requires
        fee.owed(precision, ctx) is Some,
        0 <= i < (fee.owed(precision, ctx)->0).len(),
    ensures
        ({
            let paid = (fee.owed(precision, ctx)->0)[i];
            &&& paid.src_id == ctx.taker_node || paid.src_id == ctx.maker_node
            &&& paid.dst_id == fee.fee_collector
            &&& paid.volume.val() > 0
            &&& paid.token == if paid.src_id == ctx.buyer_node {
                ctx.base_token
            } else {
                ctx.quote_token
            }
        }),
{
}

/// A fee is no more than what its payer received, where the rate is at most one and the product
/// is no more than the volume.
pub proof fn law_fee_bounded(
    node: usize,
    rate: Decimal,
    fee_collector: usize,
    precision: u8,
    ctx: FeeCtx,
)
    requires
        side_fee(node, rate, fee_collector, precision, ctx) is Some,
        (side_fee(node, rate, fee_collector, precision, ctx)->0).len() > 0,
        ({
            let volume = if node == ctx.buyer_node { ctx.base_volume } else { ctx.quote_volume };
            crate::decimal::decimal_product(volume, rate) matches Some(v) ==> v.valid() && v.val()
                <= volume.val()
        }),
    ensures
        ({
            let volume = if node == ctx.buyer_node { ctx.base_volume } else { ctx.quote_volume };
            (side_fee(node, rate, fee_collector, precision, ctx)->0)[0].volume.val() <= volume.val()
        }),
{
    let volume = if node == ctx.buyer_node { ctx.base_volume } else { ctx.quote_volume };
    lemma_cut_off(crate::decimal::decimal_product(volume, rate)->0, precision);
}

} // verus!
