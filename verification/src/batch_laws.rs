//! What holds of several market orders at once: none of them is overspent.

use crate::decimal::{
    decimal_difference, decimal_product, decimal_sum, Decimal, MAX_SCALE, NUMERATOR_BOUND,
};
use crate::matching::{
    allocations, available, batch_all, batch_round, batched, by_loss, epsilon, exact_share,
    lemma_units, losses, opposite, paid_out, shared_out, swap_transfers, total_of, Batch, PairV,
    Round, Trading, BATCH_ROUNDS,
};
use crate::node::Drt;
use crate::order::OrderBrief;
use crate::settlement_laws::{
    lemma_left_updated, lemma_paid_by_more, left_to, paid_by, share_paid,
};
use crate::trading_laws::{
    law_by_loss, law_shares_in_order, law_topped_up, lemma_losses, lemma_same_positions,
};
use vstd::prelude::*;

verus! {

/// Whether a number is not negative and counts whole units of a precision.
pub open spec fn in_units(v: Decimal, precision: u8) -> bool {
    v.valid() && v.places() <= precision && v.val() >= 0
}

/// The sum of some values.
pub open spec fn sum_of(v: Seq<Decimal>) -> int
    decreases v.len(),
{
    if v.len() == 0 {
        0
    } else {
        sum_of(v.drop_last()) + v.last().val()
    }
}

/// Whether volumes count whole units of a precision, and their sum can be held at that precision.
pub open spec fn fit_in_units(v: Seq<Decimal>, precision: u8) -> bool {
    &&& forall|j: int| 0 <= j < v.len() ==> in_units(#[trigger] v[j], precision)
    &&& sum_of(v) < NUMERATOR_BOUND * Decimal::step(precision as nat)
}

/// Whether the part of what is available that falls to a market order is computed below what it
/// has left where less is available than all have left, and as what it has left otherwise.
pub open spec fn fair_share(avail: Decimal, r: Decimal, total: Decimal) -> bool {
    exact_share(avail, r, total) matches Some(v) ==> if avail.val() < total.val() {
        v.val() < r.val()
    } else {
        v.val() == r.val()
    }
}

/// A part is fair where less is available than all have left, if what a market order does not get
/// is more than one in the last decimal place of the part and the product is exact.
pub proof fn law_fair_share(avail: Decimal, r: Decimal, total: Decimal)
    requires
        avail.valid(),
        r.valid(),
        0 < avail.val() < total.val(),
        r.val() > 0,
        avail.multiplies_exactly(r),
        exact_share(avail, r, total) matches Some(v) ==> (total.val() - avail.val()) * r.val()
            > Decimal::step(v.places()) * total.val(),
    ensures
        fair_share(avail, r, total),
{
    let part = decimal_product(avail, r)->0;
    avail.lemma_product(r);
    part.lemma_quotient(total);
    if let Some(v) = exact_share(avail, r, total) {
        let (x, y, z) = (avail.val(), r.val(), total.val());
        let q = v.val();
        let u = Decimal::step(v.places());
        assert(q < y) by (nonlinear_arith)
            requires
                q * z - x * y <= u * z,
                (z - x) * y > u * z,
                z > 0,
        ;
    }
}

/// Whether the parts of all market orders that have something left are fair.
pub open spec fn fair_shares(avail: Decimal, remain: Seq<Decimal>, total: Decimal) -> bool {
    forall|j: int|
        0 <= j < remain.len() && remain[j].val() > epsilon().val() ==> fair_share(
            avail,
            #[trigger] remain[j],
            total,
        )
}

/// Whether the parts are fair in every round of a batch.
pub open spec fn batch_fair(
    b: Batch,
    precision: u8,
    unit: Decimal,
    d: Drt,
    swaps: Seq<(usize, Decimal)>,
    rounds: nat,
) -> bool
    decreases rounds,
{
    match total_of(b.remain) {
        Some(total) => rounds == 0 || total.val() <= epsilon().val() || match batch_round(
            b,
            total,
            precision,
            unit,
            d,
            swaps,
        ) {
            Round::Next(n) => {
                &&& available(d, b.t.pair.book.queue(opposite(d))[0], total) matches Some(avail)
                    ==> fair_shares(avail, b.remain, total)
                &&& batch_fair(n, precision, unit, d, swaps, (rounds - 1) as nat)
            },
            _ => true,
        },
        None => true,
    }
}

/// Sums of whole units are exact.
pub(crate) proof fn lemma_units_sum(a: Decimal, b: Decimal, precision: u8)
    requires
        precision <= MAX_SCALE,
        in_units(a, precision),
        in_units(b, precision),
        a.val() + b.val() < NUMERATOR_BOUND * Decimal::step(precision as nat),
    ensures
        decimal_sum(a, b) matches Some(v) && in_units(v, precision) && v.val() == a.val() + b.val(),
{
    a.lemma_sum(b);
    Decimal::lemma_steps(a.finest(b), precision as nat);
}

/// Differences of whole units are exact.
pub(crate) proof fn lemma_units_difference(a: Decimal, b: Decimal, precision: u8)
    requires
        precision <= MAX_SCALE,
        in_units(a, precision),
        in_units(b, precision),
        b.val() <= a.val() < NUMERATOR_BOUND * Decimal::step(precision as nat),
    ensures
        decimal_difference(a, b) matches Some(v) && in_units(v, precision) && v.val() == a.val()
            - b.val(),
{
    a.lemma_difference(b);
    Decimal::lemma_steps(a.finest(b), precision as nat);
}

/// Two counts of units are the same or at least one unit apart.
pub(crate) proof fn lemma_units_apart(a: Decimal, b: Decimal, precision: u8)
    requires
        precision <= MAX_SCALE,
        in_units(a, precision),
        in_units(b, precision),
    ensures
        a.val() < b.val() ==> a.val() + Decimal::step(precision as nat) <= b.val(),
{
    let u = Decimal::step(precision as nat);
    Decimal::lemma_steps(precision as nat, precision as nat);
    a.lemma_multiple(precision as nat);
    b.lemma_multiple(precision as nat);
    vstd::arithmetic::div_mod::lemma_fundamental_div_mod(a.val(), u);
    vstd::arithmetic::div_mod::lemma_fundamental_div_mod(b.val(), u);
    let x = a.val() / u;
    let y = b.val() / u;
    assert(u * x < u * y ==> u * x + u <= u * y) by (nonlinear_arith)
        requires
            u > 0,
    ;
}

/// One unit of a precision of less than twelve places is more than what is not traded.
proof fn lemma_unit_counts(precision: u8)
    requires
        precision < 12,
    ensures
        ({
            let unit = Decimal::of(1, precision as nat);
            &&& in_units(unit, precision)
            &&& unit.val() == Decimal::step(precision as nat)
            &&& unit.val() > epsilon().val() > 0
        }),
{
    Decimal::lemma_of(1, precision as nat);
    Decimal::lemma_of(1, 12);
    Decimal::lemma_steps(precision as nat, 12);
}

/// A sum is at least each of its parts.
proof fn lemma_part_of_sum(v: Seq<Decimal>, j: int)
    requires
        0 <= j < v.len(),
        forall|i: int| 0 <= i < v.len() ==> (#[trigger] v[i]).val() >= 0,
    ensures
        0 <= v[j].val() <= sum_of(v),
    decreases v.len(),
{
    let head = v.drop_last();
    assert(forall|i: int| 0 <= i < head.len() ==> (#[trigger] head[i]) == v[i]);
    lemma_sum_not_negative(head);
    if j < head.len() {
        lemma_part_of_sum(head, j);
    }
}

proof fn lemma_sum_not_negative(v: Seq<Decimal>)
    requires
        forall|i: int| 0 <= i < v.len() ==> (#[trigger] v[i]).val() >= 0,
    ensures
        sum_of(v) >= 0,
    decreases v.len(),
{
    if v.len() > 0 {
        let head = v.drop_last();
        assert(forall|i: int| 0 <= i < head.len() ==> (#[trigger] head[i]) == v[i]);
        lemma_sum_not_negative(head);
    }
}

/// Smaller parts have a smaller sum.
proof fn lemma_smaller_sum(v: Seq<Decimal>, w: Seq<Decimal>)
    requires
        v.len() == w.len(),
        forall|i: int| 0 <= i < v.len() ==> (#[trigger] v[i]).val() <= w[i].val(),
    ensures
        sum_of(v) <= sum_of(w),
    decreases v.len(),
{
    if v.len() > 0 {
        let a = v.drop_last();
        let b = w.drop_last();
        assert forall|i: int| 0 <= i < a.len() implies (#[trigger] a[i]).val() <= b[i].val() by {
            assert(v[i].val() <= w[i].val());
        }
        lemma_smaller_sum(a, b);
    }
}

/// The first parts of a sum are no more than the sum.
pub(crate) proof fn lemma_sum_so_far(v: Seq<Decimal>, k: int)
    requires
        0 <= k <= v.len(),
        forall|i: int| 0 <= i < v.len() ==> (#[trigger] v[i]).val() >= 0,
    ensures
        0 <= sum_of(v.take(k)) <= sum_of(v),
        k < v.len() ==> sum_of(v.take(k + 1)) == sum_of(v.take(k)) + v[k].val(),
    decreases v.len() - k,
{
    let head = v.take(k);
    assert(forall|i: int| 0 <= i < head.len() ==> (#[trigger] head[i]) == v[i]);
    lemma_sum_not_negative(head);
    if k < v.len() {
        lemma_sum_so_far(v, k + 1);
        assert(v.take(k + 1).drop_last() =~= head);
    } else {
        assert(head =~= v);
    }
}

/// The total of volumes that fit is their sum.
pub(crate) proof fn lemma_total_of(v: Seq<Decimal>, precision: u8)
    requires
        precision <= MAX_SCALE,
        fit_in_units(v, precision),
    ensures
        total_of(v) matches Some(t) && in_units(t, precision) && t.val() == sum_of(v),
    decreases v.len(),
{
    Decimal::lemma_zero();
    Decimal::lemma_of(0, 0);
    if v.len() > 0 {
        let head = v.drop_last();
        assert forall|i: int| 0 <= i < head.len() implies in_units(
            #[trigger] head[i],
            precision,
        ) by {
            assert(head[i] == v[i]);
        }
        assert(in_units(v[v.len() - 1], precision));
        lemma_total_of(head, precision);
        lemma_sum_not_negative(head);
        lemma_units_sum(total_of(head)->0, v.last(), precision);
    }
}

/// The part that falls to a market order, cut off: whole units, no more than it has left, at least
/// one unit less where less is available than all have left, and all it has left otherwise.
proof fn lemma_cut_share(p: PairV, avail: Decimal, r: Decimal, total: Decimal)
    requires
        p.precision < 12,
        in_units(r, p.precision),
        0 < avail.val() <= total.val(),
        fair_share(avail, r, total),
        p.round(exact_share(avail, r, total)) is Some,
    ensures
        ({
            let share = p.round(exact_share(avail, r, total))->0;
            &&& in_units(share, p.precision)
            &&& if avail.val() < total.val() {
                share.val() + Decimal::step(p.precision as nat) <= r.val()
            } else {
                share.val() == r.val()
            }
        }),
{
    let part = decimal_product(avail, r)->0;
    let v = exact_share(avail, r, total)->0;
    avail.lemma_product(r);
    part.lemma_quotient(total);
    assert(avail.val() * r.val() >= 0) by (nonlinear_arith)
        requires
            avail.val() > 0,
            r.val() >= 0,
    ;
    assert(part.val() * total.val() >= 0) by (nonlinear_arith)
        requires
            part.val() >= 0,
            total.val() > 0,
    ;
    v.law_truncated(p.precision as nat);
    let share = v.truncated(p.precision as nat);
    lemma_units_apart(share, r, p.precision);
}

/// The shares before what is left over is handed out, and their sum where all is available.
proof fn lemma_allocations(p: PairV, avail: Decimal, total: Decimal, remain: Seq<Decimal>, k: nat)
    requires
        p.precision < 12,
        k <= remain.len() <= usize::MAX,
        fit_in_units(remain, p.precision),
        0 < avail.val() <= total.val(),
        fair_shares(avail, remain, total),
        allocations(p, avail, total, remain, k) is Some,
    ensures
        ({
            let (shares, sum) = allocations(p, avail, total, remain, k)->0;
            &&& forall|i: int|
                0 <= i < shares.len() ==> {
                    let r = remain[(#[trigger] shares[i]).0 as int].val();
                    &&& in_units(shares[i].1, p.precision)
                    &&& if avail.val() < total.val() {
                        shares[i].1.val() + Decimal::step(p.precision as nat) <= r
                    } else {
                        shares[i].1.val() == r
                    }
                }
            &&& avail.val() == total.val() ==> in_units(sum, p.precision) && sum.val() == sum_of(
                remain.take(k as int),
            )
        }),
    decreases k,
{
    Decimal::lemma_zero();
    Decimal::lemma_of(0, 0);
    if k > 0 {
        lemma_allocations(p, avail, total, remain, (k - 1) as nat);
        let r = remain[k - 1];
        assert(in_units(r, p.precision));
        lemma_unit_counts(p.precision);
        lemma_sum_so_far(remain, k - 1);
        lemma_sum_so_far(remain, k as int);
        if r.val() <= epsilon().val() {
            lemma_units_apart(Decimal::of(0, 0), r, p.precision);
        } else {
            lemma_cut_share(p, avail, r, total);
            let share = p.round(exact_share(avail, r, total))->0;
            if avail.val() == total.val() {
                let sum = (allocations(p, avail, total, remain, (k - 1) as nat)->0).1;
                lemma_units_sum(sum, share, p.precision);
            }
        }
    } else {
        assert(remain.take(0) =~= Seq::<Decimal>::empty());
    }
}

/// Whether shares are whole units, each of another market order and no more than it has left.
spec fn within(shares: Seq<(usize, Decimal)>, remain: Seq<Decimal>, precision: u8, from: int) -> bool {
    &&& forall|i: int|
        from <= i < shares.len() ==> {
            &&& (#[trigger] shares[i]).0 < remain.len()
            &&& in_units(shares[i].1, precision)
            &&& shares[i].1.val() <= remain[shares[i].0 as int].val()
        }
    &&& forall|i: int, j: int|
        from <= i < j < shares.len() ==> (#[trigger] shares[i]).0 < (#[trigger] shares[j]).0
}

/// No share is more than what its market order has left.
proof fn lemma_shares_within(
    p: PairV,
    unit: Decimal,
    avail: Decimal,
    total: Decimal,
    remain: Seq<Decimal>,
)
    requires
        p.precision < 12,
        unit == Decimal::of(1, p.precision as nat),
        remain.len() <= usize::MAX,
        fit_in_units(remain, p.precision),
        total.val() == sum_of(remain),
        0 < avail.val() <= total.val(),
        fair_shares(avail, remain, total),
        shared_out(p, unit, avail, total, remain) is Some,
    ensures
        within(shared_out(p, unit, avail, total, remain)->0, remain, p.precision, 0),
{
    let (shares, sum) = allocations(p, avail, total, remain, remain.len())->0;
    law_shares_in_order(p, avail, total, remain, remain.len());
    lemma_allocations(p, avail, total, remain, remain.len());
    assert(remain.take(remain.len() as int) =~= remain);
    lemma_unit_counts(p.precision);
    let rem = decimal_difference(avail, sum);
    avail.lemma_difference(sum);
    if shares.len() > 0 && (rem->0).val() >= unit.val() {
        assert(avail.val() < total.val());
        let l = losses(avail, total, remain, shares, shares.len())->0;
        lemma_losses(avail, total, remain, shares, shares.len());
        law_by_loss(l);
        lemma_same_positions(l, by_loss(l));
        law_topped_up(shares, by_loss(l), 0, rem->0, unit);
        let n = shared_out(p, unit, avail, total, remain)->0;
        assert forall|i: int| 0 <= i < n.len() implies {
            &&& (#[trigger] n[i]).0 < remain.len()
            &&& in_units(n[i].1, p.precision)
            &&& n[i].1.val() <= remain[n[i].0 as int].val()
        } by {
            assert(n[i].0 == shares[i].0);
            assert(shares[i].0 < remain.len());
            assert(in_units(remain[shares[i].0 as int], p.precision));
            lemma_part_of_sum(remain, shares[i].0 as int);
            lemma_units_sum(shares[i].1, unit, p.precision);
        }
        assert forall|i: int, j: int| 0 <= i < j < n.len() implies (#[trigger] n[i]).0 < (
        #[trigger] n[j]).0 by {
            assert(n[i].0 == shares[i].0 && n[j].0 == shares[j].0);
        }
    } else {
        assert forall|i: int| 0 <= i < shares.len() implies {
            &&& (#[trigger] shares[i]).0 < remain.len()
            &&& in_units(shares[i].1, p.precision)
            &&& shares[i].1.val() <= remain[shares[i].0 as int].val()
        } by {
            Decimal::lemma_steps(p.precision as nat, p.precision as nat);
        }
    }
}

/// Paying out shares leaves nobody with less than nothing, and what a node pays is what its market
/// orders have less afterwards.
proof fn lemma_paid_within(
    b: Batch,
    consumed: Decimal,
    precision: u8,
    d: Drt,
    o: OrderBrief,
    swaps: Seq<(usize, Decimal)>,
    shares: Seq<(usize, Decimal)>,
    i: nat,
    owner: usize,
)
    requires
        b.t.pair.precision < 12,
        b.remain.len() == swaps.len(),
        fit_in_units(b.remain, b.t.pair.precision),
        within(shares, b.remain, b.t.pair.precision, i as int),
        paid_out(b, consumed, precision, d, o, swaps, shares, i) is Some,
    ensures
        ({
            let n = (paid_out(b, consumed, precision, d, o, swaps, shares, i)->0).0;
            &&& n.t.pair.precision == b.t.pair.precision
            &&& n.remain.len() == swaps.len()
            &&& fit_in_units(n.remain, b.t.pair.precision)
            &&& paid_by(owner, n.transfers) + left_to(owner, swaps, n.remain, swaps.len())
                == paid_by(owner, b.transfers) + left_to(owner, swaps, b.remain, swaps.len())
        }),
    decreases shares.len() - i,
{
    let places = b.t.pair.precision;
    Decimal::lemma_zero();
    lemma_units(0);
    if i < shares.len() {
        let share = shares[i as int];
        let (n, gone, received) = share_paid(b, consumed, precision, d, o, swaps, share)->0;
        let j = share.0 as int;
        assert(in_units(b.remain[j], places));
        lemma_part_of_sum(b.remain, j);
        lemma_units_difference(b.remain[j], share.1, places);
        if received.val() > epsilon().val() {
            let more = swap_transfers(b.t.pair, d, swaps[j].0, o.id, share.1, received);
            lemma_paid_by_more(owner, b.transfers, more);
            assert(n.transfers == b.transfers + more);
            lemma_left_updated(owner, swaps, b.remain, swaps.len(), j, n.remain[j]);
            assert(n.remain =~= b.remain.update(j, n.remain[j]));
            lemma_smaller_sum(n.remain, b.remain);
            assert forall|k: int| 0 <= k < n.remain.len() implies in_units(
                #[trigger] n.remain[k],
                places,
            ) by {
                assert(in_units(b.remain[k], places));
            }
            assert(fit_in_units(n.remain, places));
        } else {
            lemma_zero_received(b, consumed, precision, d, o, swaps, share);
        }
        assert(within(shares, n.remain, places, i + 1int)) by {
            assert forall|k: int| i + 1 <= k < shares.len() implies {
                &&& (#[trigger] shares[k]).0 < n.remain.len()
                &&& in_units(shares[k].1, places)
                &&& shares[k].1.val() <= n.remain[shares[k].0 as int].val()
            } by {
                assert(shares[i as int].0 < shares[k].0);
            }
        }
        lemma_paid_within(n, gone, precision, d, o, swaps, shares, i + 1, owner);
    }
}

/// A share for which nothing is received is not paid.
proof fn lemma_zero_received(
    b: Batch,
    consumed: Decimal,
    precision: u8,
    d: Drt,
    o: OrderBrief,
    swaps: Seq<(usize, Decimal)>,
    share: (usize, Decimal),
)
    requires
        share_paid(b, consumed, precision, d, o, swaps, share) is Some,
        (share_paid(b, consumed, precision, d, o, swaps, share)->0).2.val() <= epsilon().val(),
    ensures
        (share_paid(b, consumed, precision, d, o, swaps, share)->0).0 == b,
        (share_paid(b, consumed, precision, d, o, swaps, share)->0).1 == consumed,
{
}

/// A round of a batch leaves nobody with less than nothing.
proof fn lemma_round_within(
    b: Batch,
    total: Decimal,
    precision: u8,
    unit: Decimal,
    d: Drt,
    swaps: Seq<(usize, Decimal)>,
    owner: usize,
)
    requires
        b.t.pair.precision < 12,
        unit == Decimal::of(1, b.t.pair.precision as nat),
        b.remain.len() == swaps.len(),
        swaps.len() <= usize::MAX,
        fit_in_units(b.remain, b.t.pair.precision),
        total.val() == sum_of(b.remain),
        batch_round(b, total, precision, unit, d, swaps) is Next,
        available(d, b.t.pair.book.queue(opposite(d))[0], total) matches Some(avail)
            ==> fair_shares(avail, b.remain, total),
    ensures
        ({
            let n = batch_round(b, total, precision, unit, d, swaps)->Next_0;
            &&& n.t.pair.precision == b.t.pair.precision
            &&& n.remain.len() == swaps.len()
            &&& fit_in_units(n.remain, b.t.pair.precision)
            &&& paid_by(owner, n.transfers) + left_to(owner, swaps, n.remain, swaps.len())
                == paid_by(owner, b.transfers) + left_to(owner, swaps, b.remain, swaps.len())
        }),
{
    let o = b.t.pair.book.queue(opposite(d))[0];
    let avail = available(d, o, total)->0;
    lemma_units(0);
    if o.price.val() > epsilon().val() && avail.val() > epsilon().val() {
        let shares = shared_out(b.t.pair, unit, avail, total, b.remain)->0;
        if shares.len() > 0 {
            lemma_shares_within(b.t.pair, unit, avail, total, b.remain);
            lemma_paid_within(
                b,
                Decimal::of(0, 0),
                precision,
                d,
                o,
                swaps,
                shares,
                0,
                owner,
            );
        }
    }
}

proof fn lemma_batch_within(
    b: Batch,
    precision: u8,
    unit: Decimal,
    d: Drt,
    swaps: Seq<(usize, Decimal)>,
    rounds: nat,
    owner: usize,
)
    requires
        b.t.pair.precision < 12,
        unit == Decimal::of(1, b.t.pair.precision as nat),
        b.remain.len() == swaps.len(),
        swaps.len() <= usize::MAX,
        fit_in_units(b.remain, b.t.pair.precision),
        batch_all(b, precision, unit, d, swaps, rounds) is Some,
        batch_fair(b, precision, unit, d, swaps, rounds),
    ensures
        ({
            let n = batch_all(b, precision, unit, d, swaps, rounds)->0;
            &&& n.remain.len() == swaps.len()
            &&& fit_in_units(n.remain, b.t.pair.precision)
            &&& paid_by(owner, n.transfers) + left_to(owner, swaps, n.remain, swaps.len())
                == paid_by(owner, b.transfers) + left_to(owner, swaps, b.remain, swaps.len())
        }),
    decreases rounds,
{
    let total = total_of(b.remain)->0;
    lemma_total_of(b.remain, b.t.pair.precision);
    if total.val() > epsilon().val() && rounds > 0 {
        match batch_round(b, total, precision, unit, d, swaps) {
            Round::Next(n) => {
                lemma_round_within(b, total, precision, unit, d, swaps, owner);
                lemma_batch_within(n, precision, unit, d, swaps, (rounds - 1) as nat, owner);
            },
            _ => {},
        }
    }
}

/// What is left to market orders that are not overspent is not negative.
proof fn lemma_left_not_negative(
    owner: usize,
    swaps: Seq<(usize, Decimal)>,
    remain: Seq<Decimal>,
    k: nat,
)
    requires
        k <= remain.len(),
        forall|j: int| 0 <= j < remain.len() ==> (#[trigger] remain[j]).val() >= 0,
    ensures
        left_to(owner, swaps, remain, k) >= 0,
    decreases k,
{
    if k > 0 {
        lemma_left_not_negative(owner, swaps, remain, (k - 1) as nat);
    }
}

/// No market order of a batch is overspent: each has not less than nothing left, and a node pays
/// no more than the volumes that it asked for. The volumes must be whole units of the pair, their
/// sum must be one that can be held, a unit must be more than the least that is traded, and the
/// parts of what is available must be computed no larger than they are.
pub proof fn law_batch_never_overspends(
    t: Trading,
    precision: u8,
    d: Drt,
    swaps: Seq<(usize, Decimal)>,
    owner: usize,
)
    requires
        swaps.len() <= usize::MAX,
        t.pair.precision < 12,
        batched(t, precision, d, swaps) is Some,
        fit_in_units(swaps.map_values(|s: (usize, Decimal)| s.1), t.pair.precision),
        batch_fair(
            Batch {
                t,
                transfers: Seq::empty(),
                closes: Seq::empty(),
                remain: swaps.map_values(|s: (usize, Decimal)| s.1),
            },
            precision,
            Decimal::of(1, t.pair.precision as nat),
            d,
            swaps,
            BATCH_ROUNDS as nat,
        ),
    ensures
        ({
            let n = batched(t, precision, d, swaps)->0;
            let volumes = swaps.map_values(|s: (usize, Decimal)| s.1);
            &&& n.remain.len() == swaps.len()
            &&& forall|j: int|
                0 <= j < n.remain.len() ==> 0 <= (#[trigger] n.remain[j]).val()
            &&& paid_by(owner, n.transfers) + left_to(owner, swaps, n.remain, swaps.len())
                == left_to(owner, swaps, volumes, swaps.len())
            &&& paid_by(owner, n.transfers) <= left_to(owner, swaps, volumes, swaps.len())
        }),
{
    let n = batched(t, precision, d, swaps)->0;
    lemma_batch_within(
        Batch {
            t,
            transfers: Seq::empty(),
            closes: Seq::empty(),
            remain: swaps.map_values(|s: (usize, Decimal)| s.1),
        },
        precision,
        Decimal::of(1, t.pair.precision as nat),
        d,
        swaps,
        BATCH_ROUNDS as nat,
        owner,
    );
    assert forall|j: int| 0 <= j < n.remain.len() implies 0 <= (#[trigger] n.remain[j]).val() by {
        assert(in_units(n.remain[j], t.pair.precision));
    }
    lemma_left_not_negative(owner, swaps, n.remain, swaps.len());
}

} // verus!
