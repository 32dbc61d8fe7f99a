//! How market orders of one frame share the orders that they meet: in proportion to what they have
//! left, and never for more than an order can pay.

use crate::batch_laws::{fit_in_units, in_units, lemma_units_sum, sum_of};
use crate::decimal::{
    decimal_difference, decimal_product, decimal_quotient, decimal_sum, Decimal, MAX_SCALE,
    NUMERATOR_BOUND,
};
use crate::matching::{
    allocations, available, batch_all, batch_round, batched, buy_spent, by_loss, epsilon,
    exact_share, lemma_units, losses, opposite, paid_out, shared_out, topped_up, total_of, Batch,
    PairV, Round, Trading, BATCH_ROUNDS,
};
use crate::node::{Drt, SwapTransfer};
use crate::number_laws::{
    difference_off, lemma_cut_by_less, product_over, product_under, quotient_over, quotient_under,
    sum_off,
};
use crate::order::OrderBrief;
use crate::pool_laws::near;
use crate::price_laws::{
    fees_asked, first_gone, lemma_fees_asked, logs_more, numbers_held, taken_at,
};
use crate::settlement_laws::share_paid;
use crate::trade_log::TraLog;
use crate::trading_laws::{law_by_loss, lemma_losses, lemma_same_positions};
use vstd::prelude::*;

verus! {

// ---- how much there is to share, and who gets which part of it ----

/// Whether market orders that have `total` left can spend `avail` on an order: all that they have,
/// or all that the order can pay for at its limit, whichever is less.
pub open spec fn spendable_on(d: Drt, o: OrderBrief, total: Decimal, avail: Decimal) -> bool {
    let one = Decimal::step(0);
    let (price, volume) = (o.price, o.src_volume);
    &&& avail.val() <= total.val()
    &&& match d {
        Drt::Buy => {
            &&& avail.val() * one <= volume.val() * price.val() + product_over(volume, price)
            &&& avail == total || avail.val() * one >= volume.val() * price.val() - product_under(
                volume,
                price,
            )
        },
        Drt::Sell => {
            &&& avail.val() * price.val() <= volume.val() * one + quotient_over(volume, price)
            &&& avail == total || avail.val() * price.val() >= volume.val() * one - quotient_under(
                volume,
                price,
            )
        },
    }
}

/// Whether `cut` is the part of what is available that falls to somebody who has `r` of `total`
/// left, in proportion to that, but for less than one unit.
pub open spec fn in_proportion(
    avail: Decimal,
    r: Decimal,
    total: Decimal,
    cut: Decimal,
    unit: int,
) -> bool {
    decimal_product(avail, r) matches Some(m) && {
        &&& cut.val() * total.val() <= avail.val() * r.val() + product_over(avail, r)
            + quotient_over(m, total)
        &&& (cut.val() + unit) * total.val() > avail.val() * r.val() - product_under(avail, r)
            - quotient_under(m, total)
    }
}

/// Whether the part of what is available that falls to somebody who has `r` of `total` left is too
/// small to count.
pub open spec fn too_small(avail: Decimal, r: Decimal, total: Decimal, unit: int) -> bool {
    decimal_product(avail, r) matches Some(m) && avail.val() * r.val() < (epsilon().val() + unit)
        * total.val() + product_under(avail, r) + quotient_under(m, total)
}

/// The sum of shares.
pub open spec fn sum_shares(shares: Seq<(usize, Decimal)>) -> int
    decreases shares.len(),
{
    if shares.len() == 0 {
        0
    } else {
        sum_shares(shares.drop_last()) + shares.last().1.val()
    }
}

/// Whether no part of what is available is computed larger than it is.
pub open spec fn rounded_down(avail: Decimal, remain: Seq<Decimal>, total: Decimal) -> bool {
    forall|j: int|
        0 <= j < remain.len() && (#[trigger] remain[j]).val() > epsilon().val() ==> product_over(
            avail,
            remain[j],
        ) == 0 && quotient_over(decimal_product(avail, remain[j])->0, total) == 0
}

/// What somebody who has `r` of `total` left lost when their part of what is available was cut off
/// to `cut`, as it is computed.
pub open spec fn lost(avail: Decimal, r: Decimal, total: Decimal, cut: Decimal) -> int {
    (decimal_difference(decimal_quotient(decimal_product(avail, r)->0, total)->0, cut)->0).val()
}

/// Whether one unit more makes a part another number.
pub open spec fn one_more_counts(cut: Decimal, precision: u8) -> bool {
    decimal_sum(cut, Decimal::of(1, precision as nat)) != Some(cut)
}

/// Whether what is available is shared out fairly, `cuts` being the parts before what is left over
/// is handed out.
///
/// Each share is of another market order and in proportion to what that has left, or one unit more;
/// those that have as much left get the same before; whoever gets one unit more lost at least as much
/// by the cut as whoever does not; and whoever gets nothing would get too little.
/// All shares together are no more than what is available and, unless every one of them got one
/// unit more, less than one unit below it. The last holds where volumes are whole units, their sum
/// fits and no part is computed larger than it is.
pub open spec fn shared_fairly(
    precision: u8,
    avail: Decimal,
    total: Decimal,
    remain: Seq<Decimal>,
    cuts: Seq<Decimal>,
    shares: Seq<(usize, Decimal)>,
) -> bool {
    let unit = Decimal::step(precision as nat);
    &&& shares.len() == cuts.len()
    &&& forall|i: int|
        0 <= i < shares.len() ==> {
            let r = remain[(#[trigger] shares[i]).0 as int];
            &&& shares[i].0 < remain.len()
            &&& r.val() > epsilon().val()
            &&& cuts[i].val() > epsilon().val()
            &&& in_proportion(avail, r, total, cuts[i], unit)
            &&& shares[i].1 == cuts[i] || decimal_sum(
                cuts[i],
                Decimal::of(1, precision as nat),
            ) == Some(shares[i].1)
        }
    &&& forall|i: int, j: int|
        0 <= i < j < shares.len() ==> (#[trigger] shares[i]).0 < (#[trigger] shares[j]).0
    &&& forall|i: int, j: int|
        0 <= i < shares.len() && 0 <= j < shares.len() && remain[(#[trigger] shares[i]).0 as int]
            == remain[(#[trigger] shares[j]).0 as int] ==> cuts[i] == cuts[j]
    &&& forall|i: int, j: int|
        0 <= i < shares.len() && 0 <= j < shares.len() && (#[trigger] shares[i]).1 != cuts[i] && (
        #[trigger] shares[j]).1 == cuts[j] && one_more_counts(cuts[j], precision) ==> lost(
            avail,
            remain[shares[i].0 as int],
            total,
            cuts[i],
        ) >= lost(avail, remain[shares[j].0 as int], total, cuts[j])
    &&& forall|j: int|
        0 <= j < remain.len() && (#[trigger] remain[j]).val() > epsilon().val() && (forall|i: int|
            0 <= i < shares.len() ==> (#[trigger] shares[i]).0 != j) ==> too_small(
            avail,
            remain[j],
            total,
            unit,
        )
    &&& rounded_down(avail, remain, total) && fit_in_units(remain, precision) && total.val()
        == sum_of(remain) ==> {
        &&& sum_shares(shares) <= avail.val()
        &&& shares.len() == 0 || sum_shares(shares) + unit > avail.val() || forall|i: int|
            0 <= i < shares.len() ==> (#[trigger] shares[i]).1.val() == cuts[i].val() + unit
    }
}

/// The part that falls to one market order.
proof fn lemma_part(p: PairV, avail: Decimal, r: Decimal, total: Decimal)
    requires
        p.precision <= MAX_SCALE,
        avail.val() > 0,
        r.val() > 0,
        total.val() > 0,
        p.round(exact_share(avail, r, total)) is Some,
    ensures
        ({
            let unit = Decimal::step(p.precision as nat);
            let cut = p.round(exact_share(avail, r, total))->0;
            &&& in_units(cut, p.precision)
            &&& in_proportion(avail, r, total, cut, unit)
            &&& cut.val() <= epsilon().val() ==> too_small(avail, r, total, unit)
        }),
{
    let m = decimal_product(avail, r)->0;
    let v = exact_share(avail, r, total)->0;
    avail.lemma_product(r);
    m.lemma_quotient(total);
    let (a, b, t) = (avail.val(), r.val(), total.val());
    assert(a * b > 0) by (nonlinear_arith)
        requires
            a > 0,
            b > 0,
    ;
    let x = m.val();
    assert(x * t >= 0) by (nonlinear_arith)
        requires
            x >= 0,
            t > 0,
    ;
    v.law_truncated(p.precision as nat);
    lemma_cut_by_less(v, p.precision);
    let cut = v.truncated(p.precision as nat);
    let u = Decimal::step(p.precision as nat);
    let (y, z) = (v.val(), cut.val());
    assert(z * t <= y * t && (z + u) * t > y * t) by (nonlinear_arith)
        requires
            z <= y < z + u,
            t > 0,
    ;
    let e = epsilon().val();
    assert(z <= e ==> (z + u) * t <= (e + u) * t) by (nonlinear_arith)
        requires
            t > 0,
    ;
}

/// The parts before what is left over is handed out.
pub open spec fn parts_of(shares: Seq<(usize, Decimal)>) -> Seq<Decimal> {
    shares.map_values(|s: (usize, Decimal)| s.1)
}

/// The shares of the first market orders, without those that come to nothing.
proof fn lemma_allocations_fair(
    p: PairV,
    avail: Decimal,
    total: Decimal,
    remain: Seq<Decimal>,
    k: nat,
)
    requires
        p.precision <= MAX_SCALE,
        k <= remain.len() <= usize::MAX,
        avail.val() > 0,
        total.val() > 0,
        epsilon().val() > 0,
        allocations(p, avail, total, remain, k) is Some,
    ensures
        ({
            let shares = (allocations(p, avail, total, remain, k)->0).0;
            let unit = Decimal::step(p.precision as nat);
            &&& shares.len() <= k
            &&& forall|i: int|
                0 <= i < shares.len() ==> {
                    let r = remain[(#[trigger] shares[i]).0 as int];
                    &&& shares[i].0 < k
                    &&& r.val() > epsilon().val()
                    &&& shares[i].1.val() > epsilon().val()
                    &&& in_units(shares[i].1, p.precision)
                    &&& in_proportion(avail, r, total, shares[i].1, unit)
                    &&& p.round(exact_share(avail, r, total)) == Some(shares[i].1)
                }
            &&& forall|i: int, j: int|
                0 <= i < j < shares.len() ==> (#[trigger] shares[i]).0 < (#[trigger] shares[j]).0
            &&& forall|j: int|
                0 <= j < k && (#[trigger] remain[j]).val() > epsilon().val() && (forall|i: int|
                    0 <= i < shares.len() ==> (#[trigger] shares[i]).0 != j) ==> too_small(
                    avail,
                    remain[j],
                    total,
                    unit,
                )
        }),
    decreases k,
{
    if k > 0 {
        lemma_allocations_fair(p, avail, total, remain, (k - 1) as nat);
        let prev = (allocations(p, avail, total, remain, (k - 1) as nat)->0).0;
        let shares = (allocations(p, avail, total, remain, k)->0).0;
        let r = remain[k - 1];
        if r.val() > epsilon().val() {
            lemma_part(p, avail, r, total);
        }
        let unit = Decimal::step(p.precision as nat);
        assert forall|j: int|
            0 <= j < k && (#[trigger] remain[j]).val() > epsilon().val() && (forall|i: int|
                0 <= i < shares.len() ==> (#[trigger] shares[i]).0 != j) implies too_small(
            avail,
            remain[j],
            total,
            unit,
        ) by {
            if j < k - 1 {
                assert forall|i: int| 0 <= i < prev.len() implies (#[trigger] prev[i]).0 != j by {
                    assert(shares[i] == prev[i]);
                }
            } else {
                if shares.len() > prev.len() {
                    assert(shares[prev.len() as int].0 == j);
                }
            }
        }
    }
}

/// What is available and what the shares leave of it is exact, where all is in whole units.
proof fn lemma_exact_rest(a: Decimal, b: Decimal, precision: u8)
    requires
        precision <= MAX_SCALE,
        a.valid(),
        b.valid(),
        b.places() <= precision,
        0 <= b.val() <= a.val(),
        a.val() < NUMERATOR_BOUND * Decimal::step(precision as nat),
    ensures
        decimal_difference(a, b) matches Some(v) && v.valid() && v.val() == a.val() - b.val(),
{
    a.lemma_difference(b);
    a.lemma_fits();
    let f = a.finest(b);
    Decimal::lemma_steps(f, f);
    Decimal::lemma_steps(b.places(), precision as nat);
    let n = NUMERATOR_BOUND as int;
    let (x, y) = (Decimal::step(b.places()), Decimal::step(precision as nat));
    assert(n * y <= n * x) by (nonlinear_arith)
        requires
            y <= x,
            n > 0,
    ;
    assert(-n * Decimal::step(f) < 0) by (nonlinear_arith)
        requires
            n > 0,
            Decimal::step(f) > 0,
    ;
}

/// The shares of the first market orders together.
proof fn lemma_allocations_sum(
    p: PairV,
    avail: Decimal,
    total: Decimal,
    remain: Seq<Decimal>,
    k: nat,
)
    requires
        p.precision <= MAX_SCALE,
        k <= remain.len() <= usize::MAX,
        0 < avail.val() <= total.val(),
        epsilon().val() > 0,
        rounded_down(avail, remain, total),
        fit_in_units(remain, p.precision),
        total.val() == sum_of(remain),
        allocations(p, avail, total, remain, k) is Some,
    ensures
        ({
            let (shares, sum) = allocations(p, avail, total, remain, k)->0;
            &&& in_units(sum, p.precision)
            &&& sum.val() == sum_shares(shares)
            &&& sum.val() * total.val() <= avail.val() * sum_of(remain.take(k as int))
            &&& sum.val() <= avail.val()
        }),
    decreases k,
{
    Decimal::lemma_zero();
    Decimal::lemma_of(0, 0);
    if k > 0 {
        lemma_allocations_sum(p, avail, total, remain, (k - 1) as nat);
        lemma_allocations_fair(p, avail, total, remain, (k - 1) as nat);
        let (prev, before) = allocations(p, avail, total, remain, (k - 1) as nat)->0;
        let (shares, sum) = allocations(p, avail, total, remain, k)->0;
        let r = remain[k - 1];
        assert(in_units(r, p.precision));
        crate::batch_laws::lemma_sum_so_far(remain, k - 1);
        crate::batch_laws::lemma_sum_so_far(remain, k as int);
        let (a, t) = (avail.val(), total.val());
        let (x, y, z) = (
            sum_of(remain.take(k - 1)),
            sum_of(remain.take(k as int)),
            r.val(),
        );
        assert(y == x + z);
        assert(a * y == a * x + a * z) by (nonlinear_arith)
            requires
                y == x + z,
        ;
        assert(a * z >= 0) by (nonlinear_arith)
            requires
                a > 0,
                z >= 0,
        ;
        assert(a * y <= a * t) by (nonlinear_arith)
            requires
                y <= t,
                a > 0,
        ;
        if r.val() > epsilon().val() {
            lemma_part(p, avail, r, total);
            let cut = p.round(exact_share(avail, r, total))->0;
            if cut.val() > epsilon().val() {
                let (s, c) = (before.val(), cut.val());
                assert((s + c) * t == s * t + c * t) by (nonlinear_arith);
                assert(s + c <= a) by (nonlinear_arith)
                    requires
                        (s + c) * t <= a * t,
                        t > 0,
                ;
                lemma_units_sum(before, cut, p.precision);
                assert(shares.drop_last() =~= prev);
            }
        }
        let g = sum.val();
        assert(g <= a) by (nonlinear_arith)
            requires
                g * t <= a * t,
                t > 0,
        ;
    } else {
        assert(remain.take(0) =~= Seq::<Decimal>::empty());
        assert(0 * total.val() == 0 && avail.val() * 0 == 0) by (nonlinear_arith);
    }
}

/// Raising one share raises the sum of shares by as much.
proof fn lemma_sum_raised(shares: Seq<(usize, Decimal)>, j: int, v: Decimal)
    requires
        0 <= j < shares.len(),
    ensures
        sum_shares(shares.update(j, (shares[j].0, v))) == sum_shares(shares) + v.val()
            - shares[j].1.val(),
    decreases shares.len(),
{
    let up = shares.update(j, (shares[j].0, v));
    if j < shares.len() - 1 {
        lemma_sum_raised(shares.drop_last(), j, v);
        assert(up.drop_last() =~= shares.drop_last().update(j, (shares[j].0, v)));
    } else {
        assert(up.drop_last() =~= shares.drop_last());
    }
}

/// Handing out what is left over, one unit at a time, ends when less than one unit is left or
/// everybody got one.
proof fn lemma_topped_sum(
    shares: Seq<(usize, Decimal)>,
    order: Seq<(usize, Decimal)>,
    i: nat,
    rem: Decimal,
    unit: Decimal,
    precision: u8,
    avail: int,
)
    requires
        precision <= MAX_SCALE,
        unit == Decimal::of(1, precision as nat),
        topped_up(shares, order, i, rem, unit) is Some,
        i <= order.len(),
        forall|j: int| 0 <= j < order.len() ==> (#[trigger] order[j]).0 < shares.len(),
        forall|j: int, k: int|
            0 <= j < k < order.len() ==> (#[trigger] order[j]).0 != (#[trigger] order[k]).0,
        forall|j: int| 0 <= j < shares.len() ==> in_units((#[trigger] shares[j]).1, precision),
        rem.valid(),
        rem.val() >= 0,
        sum_shares(shares) + rem.val() == avail,
        avail < NUMERATOR_BOUND * Decimal::step(precision as nat),
    ensures
        ({
            let n = topped_up(shares, order, i, rem, unit)->0;
            &&& sum_shares(n) <= avail
            &&& sum_shares(n) + Decimal::step(precision as nat) > avail || forall|k: int|
                i <= k < order.len() ==> n[(#[trigger] order[k]).0 as int].1.val()
                    == shares[order[k].0 as int].1.val() + Decimal::step(precision as nat)
        }),
    decreases order.len() - i,
{
    Decimal::lemma_of(1, precision as nat);
    let u = Decimal::step(precision as nat);
    assert(1 * u == u) by (nonlinear_arith);
    lemma_sum_not_below(shares);
    if i < order.len() && rem.val() >= unit.val() {
        let j = order[i as int].0 as int;
        lemma_one_of_sum(shares, j);
        assert(in_units(shares[j].1, precision));
        lemma_units_sum(shares[j].1, unit, precision);
        lemma_exact_rest(rem, unit, precision);
        let more = decimal_sum(shares[j].1, unit)->0;
        let rest = decimal_difference(rem, unit)->0;
        let up = shares.update(j, (shares[j].0, more));
        lemma_sum_raised(shares, j, more);
        lemma_topped_sum(up, order, i + 1, rest, unit, precision, avail);
        crate::trading_laws::law_topped_up(up, order, i + 1, rest, unit);
        let n = topped_up(shares, order, i, rem, unit)->0;
        if sum_shares(n) + u <= avail {
            assert forall|k: int| i <= k < order.len() implies n[(
            #[trigger] order[k]).0 as int].1.val() == shares[order[k].0 as int].1.val() + u by {
                if k == i {
                    assert(n[order[i as int].0 as int] == up[order[i as int].0 as int]);
                } else {
                    assert(order[i as int].0 != order[k].0);
                }
            }
        }
    }
}

proof fn lemma_sum_not_below(shares: Seq<(usize, Decimal)>)
    requires
        forall|j: int| 0 <= j < shares.len() ==> (#[trigger] shares[j]).1.val() >= 0,
    ensures
        sum_shares(shares) >= 0,
    decreases shares.len(),
{
    if shares.len() > 0 {
        let head = shares.drop_last();
        assert(forall|j: int| 0 <= j < head.len() ==> (#[trigger] head[j]) == shares[j]);
        lemma_sum_not_below(head);
    }
}

proof fn lemma_one_of_sum(shares: Seq<(usize, Decimal)>, j: int)
    requires
        0 <= j < shares.len(),
        forall|j: int| 0 <= j < shares.len() ==> (#[trigger] shares[j]).1.val() >= 0,
    ensures
        0 <= shares[j].1.val() <= sum_shares(shares),
    decreases shares.len(),
{
    let head = shares.drop_last();
    assert(forall|j: int| 0 <= j < head.len() ==> (#[trigger] head[j]) == shares[j]);
    lemma_sum_not_below(head);
    if j < head.len() {
        lemma_one_of_sum(head, j);
    }
}

/// What is available is shared out in proportion to what market orders have left, and what the cuts
/// leave over goes to them one unit at a time.
pub proof fn law_shared_in_proportion(
    p: PairV,
    unit: Decimal,
    avail: Decimal,
    total: Decimal,
    remain: Seq<Decimal>,
) -> (cuts: Seq<Decimal>)
    requires
        p.precision <= MAX_SCALE,
        unit == Decimal::of(1, p.precision as nat),
        remain.len() <= usize::MAX,
        avail.valid(),
        0 < avail.val() <= total.val(),
        shared_out(p, unit, avail, total, remain) is Some,
    ensures
        shared_fairly(
            p.precision,
            avail,
            total,
            remain,
            cuts,
            shared_out(p, unit, avail, total, remain)->0,
        ),
{
    lemma_units(p.precision);
    let (shares, sum) = allocations(p, avail, total, remain, remain.len())->0;
    lemma_allocations_fair(p, avail, total, remain, remain.len());
    let n = shared_out(p, unit, avail, total, remain)->0;
    let cuts = parts_of(shares);
    let u = Decimal::step(p.precision as nat);
    let exact = rounded_down(avail, remain, total) && fit_in_units(remain, p.precision)
        && total.val() == sum_of(remain);
    Decimal::lemma_of(1, p.precision as nat);
    assert(1 * u == u) by (nonlinear_arith);
    if exact {
        lemma_allocations_sum(p, avail, total, remain, remain.len());
        lemma_exact_rest(avail, sum, p.precision);
    }
    let rem = decimal_difference(avail, sum);
    if shares.len() > 0 && (rem->0).val() >= unit.val() {
        let l = losses(avail, total, remain, shares, shares.len())->0;
        lemma_losses(avail, total, remain, shares, shares.len());
        law_by_loss(l);
        lemma_same_positions(l, by_loss(l));
        crate::trading_laws::law_topped_up(shares, by_loss(l), 0, rem->0, unit);
        lemma_most_lost_first(p, unit, avail, total, remain, shares, rem->0);
        if exact {
            lemma_topped_sum(shares, by_loss(l), 0, rem->0, unit, p.precision, avail.val());
            if sum_shares(n) + u <= avail.val() {
                lemma_everybody(l, by_loss(l));
                assert forall|i: int| 0 <= i < n.len() implies (#[trigger] n[i]).1.val()
                    == cuts[i].val() + u by {
                    assert(listed(by_loss(l), i));
                    let k = choose|k: int|
                        0 <= k < by_loss(l).len() && (#[trigger] by_loss(l)[k]).0 == i;
                    assert(by_loss(l)[k].0 == i);
                }
            }
        }
    }
    assert forall|i: int, j: int|
        0 <= i < n.len() && 0 <= j < n.len() && (#[trigger] n[i]).1 != cuts[i] && (
        #[trigger] n[j]).1 == cuts[j] && one_more_counts(cuts[j], p.precision) implies lost(
        avail,
        remain[n[i].0 as int],
        total,
        cuts[i],
    ) >= lost(avail, remain[n[j].0 as int], total, cuts[j]) by {
        assert(n[i].0 == shares[i].0 && n[j].0 == shares[j].0);
    }
    assert forall|i: int| 0 <= i < n.len() implies {
        let r = remain[(#[trigger] n[i]).0 as int];
        &&& n[i].0 < remain.len()
        &&& r.val() > epsilon().val()
        &&& cuts[i].val() > epsilon().val()
        &&& in_proportion(avail, r, total, cuts[i], u)
        &&& n[i].1 == cuts[i] || decimal_sum(cuts[i], unit) == Some(n[i].1)
    } by {
        assert(n[i].0 == shares[i].0);
    }
    assert forall|i: int, j: int| 0 <= i < j < n.len() implies (#[trigger] n[i]).0 < (
    #[trigger] n[j]).0 by {
        assert(n[i].0 == shares[i].0 && n[j].0 == shares[j].0);
    }
    assert forall|i: int, j: int|
        0 <= i < n.len() && 0 <= j < n.len() && remain[(#[trigger] n[i]).0 as int] == remain[(
        #[trigger] n[j]).0 as int] implies cuts[i] == cuts[j] by {
        assert(n[i].0 == shares[i].0 && n[j].0 == shares[j].0);
    }
    assert forall|j: int|
        0 <= j < remain.len() && (#[trigger] remain[j]).val() > epsilon().val() && (forall|i: int|
            0 <= i < n.len() ==> (#[trigger] n[i]).0 != j) implies too_small(
        avail,
        remain[j],
        total,
        u,
    ) by {
        assert forall|i: int| 0 <= i < shares.len() implies (#[trigger] shares[i]).0 != j by {
            assert(n[i].0 == shares[i].0);
        }
    }
    cuts
}

/// Units are handed out from the head of the order.
proof fn lemma_topped_head(
    shares: Seq<(usize, Decimal)>,
    order: Seq<(usize, Decimal)>,
    i: nat,
    rem: Decimal,
    unit: Decimal,
) -> (k: nat)
    requires
        topped_up(shares, order, i, rem, unit) is Some,
        i <= order.len(),
        forall|j: int| 0 <= j < order.len() ==> (#[trigger] order[j]).0 < shares.len(),
        forall|j: int, k: int|
            0 <= j < k < order.len() ==> (#[trigger] order[j]).0 != (#[trigger] order[k]).0,
    ensures
        ({
            let n = topped_up(shares, order, i, rem, unit)->0;
            &&& i <= k <= order.len()
            &&& n.len() == shares.len()
            &&& forall|j: int|
                i <= j < k ==> decimal_sum(shares[(#[trigger] order[j]).0 as int].1, unit) == Some(
                    n[order[j].0 as int].1,
                )
            &&& forall|j: int|
                0 <= j < i || k <= j < order.len() ==> n[(#[trigger] order[j]).0 as int]
                    == shares[order[j].0 as int]
        }),
    decreases order.len() - i,
{
    if i >= order.len() || rem.val() < unit.val() {
        i
    } else {
        let j = order[i as int].0 as int;
        let more = decimal_sum(shares[j].1, unit)->0;
        let rest = decimal_difference(rem, unit)->0;
        let up = shares.update(j, (shares[j].0, more));
        let k = lemma_topped_head(up, order, i + 1, rest, unit);
        let n = topped_up(shares, order, i, rem, unit)->0;
        assert(n[order[i as int].0 as int] == up[order[i as int].0 as int]);
        assert forall|x: int| 0 <= x < i || k <= x < order.len() implies n[(
        #[trigger] order[x]).0 as int] == shares[order[x].0 as int] by {
            assert(order[x].0 != order[i as int].0);
        }
        assert forall|x: int| i <= x < k implies decimal_sum(
            shares[(#[trigger] order[x]).0 as int].1,
            unit,
        ) == Some(n[order[x].0 as int].1) by {
            if x > i {
                assert(order[x].0 != order[i as int].0);
            }
        }
        k
    }
}

/// What is left over goes first to those who lost most.
proof fn lemma_most_lost_first(
    p: PairV,
    unit: Decimal,
    avail: Decimal,
    total: Decimal,
    remain: Seq<Decimal>,
    shares: Seq<(usize, Decimal)>,
    rem: Decimal,
)
    requires
        unit == Decimal::of(1, p.precision as nat),
        shares.len() <= usize::MAX,
        losses(avail, total, remain, shares, shares.len()) is Some,
        topped_up(
            shares,
            by_loss(losses(avail, total, remain, shares, shares.len())->0),
            0,
            rem,
            unit,
        ) is Some,
    ensures
        ({
            let n = topped_up(
                shares,
                by_loss(losses(avail, total, remain, shares, shares.len())->0),
                0,
                rem,
                unit,
            )->0;
            &&& n.len() == shares.len()
            &&& forall|i: int, j: int|
                0 <= i < n.len() && 0 <= j < n.len() && (#[trigger] n[i]).1 != shares[i].1 && (
                #[trigger] n[j]).1 == shares[j].1 && one_more_counts(shares[j].1, p.precision)
                    ==> lost(avail, remain[shares[i].0 as int], total, shares[i].1) >= lost(
                    avail,
                    remain[shares[j].0 as int],
                    total,
                    shares[j].1,
                )
        }),
{
    let l = losses(avail, total, remain, shares, shares.len())->0;
    let order = by_loss(l);
    lemma_losses(avail, total, remain, shares, shares.len());
    lemma_losses_are(avail, total, remain, shares, shares.len());
    law_by_loss(l);
    lemma_same_positions(l, order);
    lemma_everybody(l, order);
    lemma_same_entries(l, order);
    let n = topped_up(shares, order, 0, rem, unit)->0;
    let k = lemma_topped_head(shares, order, 0, rem, unit);
    assert forall|i: int, j: int|
        0 <= i < n.len() && 0 <= j < n.len() && (#[trigger] n[i]).1 != shares[i].1 && (
        #[trigger] n[j]).1 == shares[j].1 && one_more_counts(
            shares[j].1,
            p.precision,
        ) implies lost(avail, remain[shares[i].0 as int], total, shares[i].1) >= lost(
        avail,
        remain[shares[j].0 as int],
        total,
        shares[j].1,
    ) by {
        assert(listed(order, i) && listed(order, j));
        let x = choose|x: int| 0 <= x < order.len() && (#[trigger] order[x]).0 == i;
        let y = choose|y: int| 0 <= y < order.len() && (#[trigger] order[y]).0 == j;
        assert(x < k);
        assert(y >= k);
        assert(order[x].1.val() >= order[y].1.val());
        assert(order[x] == l[i] && order[y] == l[j]);
    }
}

/// The entries of another order of losses that are listed by position.
proof fn lemma_same_entries(l: Seq<(usize, Decimal)>, m: Seq<(usize, Decimal)>)
    requires
        forall|i: int| 0 <= i < l.len() ==> (#[trigger] l[i]).0 == i,
        m.to_multiset() == l.to_multiset(),
        m.len() == l.len(),
    ensures
        forall|x: int| 0 <= x < m.len() ==> (#[trigger] m[x]) == l[m[x].0 as int],
{
    broadcast use vstd::seq_lib::group_to_multiset_ensures;

    assert forall|x: int| 0 <= x < m.len() implies (#[trigger] m[x]) == l[m[x].0 as int] by {
        assert(m.contains(m[x]));
        assert(m.to_multiset().count(m[x]) > 0);
        assert(l.contains(m[x]));
        let i = choose|i: int| 0 <= i < l.len() && l[i] == m[x];
        assert(l[i].0 == i);
    }
}

/// What each share lost by the cut.
proof fn lemma_losses_are(
    avail: Decimal,
    total: Decimal,
    remain: Seq<Decimal>,
    shares: Seq<(usize, Decimal)>,
    k: nat,
)
    requires
        k <= shares.len() <= usize::MAX,
        losses(avail, total, remain, shares, k) is Some,
    ensures
        ({
            let l = losses(avail, total, remain, shares, k)->0;
            &&& l.len() == k
            &&& forall|i: int|
                0 <= i < k ==> (#[trigger] l[i]).1.val() == lost(
                    avail,
                    remain[shares[i].0 as int],
                    total,
                    shares[i].1,
                )
        }),
    decreases k,
{
    if k > 0 {
        lemma_losses_are(avail, total, remain, shares, (k - 1) as nat);
    }
}

/// Whether a position is among those that are listed.
spec fn listed(m: Seq<(usize, Decimal)>, i: int) -> bool {
    exists|k: int| 0 <= k < m.len() && (#[trigger] m[k]).0 == i
}

/// Another order of losses that are listed by position names every position.
proof fn lemma_everybody(l: Seq<(usize, Decimal)>, m: Seq<(usize, Decimal)>)
    requires
        forall|i: int| 0 <= i < l.len() ==> (#[trigger] l[i]).0 == i,
        m.to_multiset() == l.to_multiset(),
        m.len() == l.len(),
    ensures
        forall|i: int| 0 <= i < l.len() ==> #[trigger] listed(m, i),
{
    broadcast use vstd::seq_lib::group_to_multiset_ensures;

    assert forall|i: int| 0 <= i < l.len() implies #[trigger] listed(m, i) by {
        assert(l.contains(l[i]));
        assert(l.to_multiset().count(l[i]) > 0);
        assert(m.contains(l[i]));
        let k = choose|k: int| 0 <= k < m.len() && m[k] == l[i];
        assert(m[k].0 == i);
    }
}

// ---- what is paid and received ----

/// Whether `received` is what somebody gets who pays `paid` at a price, as far as `left` of it is
/// there, but for less than one unit.
pub open spec fn gets(
    d: Drt,
    price: Decimal,
    paid: Decimal,
    left: Decimal,
    received: Decimal,
    unit: int,
) -> bool {
    let one = Decimal::step(0);
    &&& received.val() > 0 ==> received.val() <= left.val() && match d {
        Drt::Buy => received.val() * price.val() <= paid.val() * one + quotient_over(paid, price),
        Drt::Sell => received.val() * one <= paid.val() * price.val() + product_over(paid, price),
    }
    &&& left.val() < received.val() + unit || match d {
        Drt::Buy => (received.val() + unit) * price.val() > paid.val() * one - quotient_under(
            paid,
            price,
        ),
        Drt::Sell => (received.val() + unit) * one > paid.val() * price.val() - product_under(
            paid,
            price,
        ),
    }
}

/// Whether a share of an order of which some is gone was paid: the owner pays all of the share and
/// gets what it is worth at the limit of the order, the fees are asked for of the owner as the taker
/// and of the order as the maker, and the trade is logged; or nothing happens, where that is nothing.
pub open spec fn share_step(
    a: (Batch, Decimal),
    b: (Batch, Decimal),
    precision: u8,
    d: Drt,
    o: OrderBrief,
    swaps: Seq<(usize, Decimal)>,
    share: (usize, Decimal),
    left: Decimal,
    received: Decimal,
) -> bool {
    let p = a.0.t.pair;
    let unit = Decimal::step(p.precision as nat);
    let j = share.0 as int;
    let paid = share.1;
    let owner = swaps[j].0;
    let buys = d == Drt::Buy;
    let gone_off = difference_off(o.src_volume, a.1);
    let paid_off = difference_off(a.0.remain[j], paid);
    let sum_of_both_off = sum_off(a.1, received);
    &&& near(left.val(), o.src_volume.val() - a.1.val(), gone_off, gone_off)
    &&& gets(d, o.price, paid, left, received, unit)
    &&& if received.val() <= epsilon().val() {
        b == a
    } else {
        &&& b.0.transfers == a.0.transfers + seq![
            SwapTransfer {
                src_id: owner,
                dst_id: o.id,
                token: if buys {
                    p.quote_token
                } else {
                    p.base_token
                },
                volume: paid,
            },
            SwapTransfer {
                src_id: o.id,
                dst_id: owner,
                token: if buys {
                    p.base_token
                } else {
                    p.quote_token
                },
                volume: received,
            },
        ]
        &&& logs_more(
            p.logs,
            p.max_tra_log_length,
            b.0.t.pair.logs,
            TraLog {
                step_count: p.step_count,
                buy_node: if buys {
                    owner
                } else {
                    o.id
                },
                sell_node: if buys {
                    o.id
                } else {
                    owner
                },
                price: o.price,
                volume: if buys {
                    received
                } else {
                    paid
                },
            },
        )
        &&& b.0.t.msgs == a.0.t.msgs + fees_asked(
            p.fee,
            precision,
            if buys {
                taken_at(p, buys, owner, o.id, received, paid)
            } else {
                taken_at(p, buys, owner, o.id, paid, received)
            },
        )
        &&& b.0.remain.len() == a.0.remain.len()
        &&& forall|i: int|
            0 <= i < a.0.remain.len() && i != j ==> #[trigger] b.0.remain[i] == a.0.remain[i]
        &&& near(b.0.remain[j].val(), a.0.remain[j].val() - paid.val(), paid_off, paid_off)
        &&& near(b.1.val(), a.1.val() + received.val(), sum_of_both_off, sum_of_both_off)
        &&& b.0.closes == a.0.closes
    }
    &&& b.0.t.pair.book == p.book
    &&& b.0.t.pair.precision == p.precision
    &&& b.0.t.pair.quote_token == p.quote_token && b.0.t.pair.base_token == p.base_token
    &&& b.0.t.pair.step_count == p.step_count && b.0.t.pair.fee == p.fee
}

/// Whether shares were paid one after the other, the states in between being given.
pub open spec fn shares_steps(
    trace: Seq<(Batch, Decimal)>,
    precision: u8,
    d: Drt,
    o: OrderBrief,
    swaps: Seq<(usize, Decimal)>,
    shares: Seq<(usize, Decimal)>,
    lefts: Seq<Decimal>,
    received: Seq<Decimal>,
) -> bool {
    &&& trace.len() == shares.len() + 1
    &&& lefts.len() == shares.len() && received.len() == shares.len()
    &&& forall|i: int|
        0 <= i < shares.len() ==> share_step(
            trace[i],
            trace[i + 1],
            precision,
            d,
            o,
            swaps,
            #[trigger] shares[i],
            lefts[i],
            received[i],
        )
}

/// What is received for a share.
proof fn lemma_gets(d: Drt, price: Decimal, paid: Decimal, left: Decimal, precision: u8)
    requires
        precision <= MAX_SCALE,
        price.val() > 0,
        left.valid(),
    ensures
        ({
            let worth = match d {
                Drt::Buy => decimal_quotient(paid, price),
                Drt::Sell => decimal_product(paid, price),
            };
            worth is Some ==> gets(
                d,
                price,
                paid,
                left,
                (worth->0).least(left).truncated(precision as nat),
                Decimal::step(precision as nat),
            )
        }),
{
    paid.lemma_quotient(price);
    paid.lemma_product(price);
    let worth = match d {
        Drt::Buy => decimal_quotient(paid, price),
        Drt::Sell => decimal_product(paid, price),
    };
    if worth is Some {
        let most = (worth->0).least(left);
        lemma_cut_by_less(most, precision);
        let got = most.truncated(precision as nat);
        let u = Decimal::step(precision as nat);
        let w = Decimal::step(0);
        let p = price.val();
        let (x, y) = ((worth->0).val(), got.val());
        assert(y <= x ==> y * p <= x * p && y * w <= x * w) by (nonlinear_arith)
            requires
                p > 0,
                w > 0,
        ;
        assert(x < y + u ==> x * p < (y + u) * p && x * w < (y + u) * w) by (nonlinear_arith)
            requires
                p > 0,
                w > 0,
        ;
    }
}

#[verifier::spinoff_prover]
#[verifier::rlimit(40)]
proof fn lemma_share_step(
    b: Batch,
    consumed: Decimal,
    precision: u8,
    d: Drt,
    o: OrderBrief,
    swaps: Seq<(usize, Decimal)>,
    share: (usize, Decimal),
) -> (r: (Decimal, Decimal))
    requires
        b.t.pair.precision <= MAX_SCALE,
        share.0 < b.remain.len(),
        b.remain.len() == swaps.len(),
        o.price.val() > 0,
        o.src_volume.valid(),
        consumed.valid(),
        epsilon().val() > 0,
        share_paid(b, consumed, precision, d, o, swaps, share) is Some,
    ensures
        ({
            let (n, gone, _) = share_paid(b, consumed, precision, d, o, swaps, share)->0;
            &&& share_step((b, consumed), (n, gone), precision, d, o, swaps, share, r.0, r.1)
            &&& gone.valid()
            &&& n.remain.len() == swaps.len()
        }),
{
    let (n, gone, _) = share_paid(b, consumed, precision, d, o, swaps, share)->0;
    Decimal::lemma_zero();
    let left = decimal_difference(o.src_volume, consumed)->0;
    o.src_volume.lemma_difference(consumed);
    lemma_gets(d, o.price, share.1, left, b.t.pair.precision);
    let worth = match d {
        Drt::Buy => decimal_quotient(share.1, o.price),
        Drt::Sell => decimal_product(share.1, o.price),
    };
    let received = (worth->0).least(left).truncated(b.t.pair.precision as nat);
    consumed.lemma_sum(received);
    let trade = match d {
        Drt::Buy => taken_at(b.t.pair, true, swaps[share.0 as int].0, o.id, received, share.1),
        Drt::Sell => taken_at(b.t.pair, false, swaps[share.0 as int].0, o.id, share.1, received),
    };
    if received.val() > epsilon().val() {
        lemma_fees_asked(b.t.pair.fee, precision, trade);
    }
    assert(share_step((b, consumed), (n, gone), precision, d, o, swaps, share, left, received));
    (left, received)
}

proof fn lemma_shares_steps(
    b: Batch,
    consumed: Decimal,
    precision: u8,
    d: Drt,
    o: OrderBrief,
    swaps: Seq<(usize, Decimal)>,
    shares: Seq<(usize, Decimal)>,
    i: nat,
) -> (r: (Seq<(Batch, Decimal)>, Seq<Decimal>, Seq<Decimal>))
    requires
        b.t.pair.precision <= MAX_SCALE,
        b.remain.len() == swaps.len(),
        o.price.val() > 0,
        o.src_volume.valid(),
        consumed.valid(),
        epsilon().val() > 0,
        i <= shares.len(),
        forall|k: int|
            0 <= k < shares.len() ==> (#[trigger] shares[k]).0 < swaps.len(),
        paid_out(b, consumed, precision, d, o, swaps, shares, i) is Some,
    ensures
        shares_steps(r.0, precision, d, o, swaps, shares.skip(i as int), r.1, r.2),
        r.0[0] == (b, consumed),
        r.0.last() == paid_out(b, consumed, precision, d, o, swaps, shares, i)->0,
        r.0.last().1.valid(),
        r.0.last().0.t.pair.book == b.t.pair.book,
        r.0.last().0.t.pair.precision == b.t.pair.precision,
        r.0.last().0.remain.len() == swaps.len(),
    decreases shares.len() - i,
{
    if i >= shares.len() {
        assert(shares.skip(i as int) =~= Seq::<(usize, Decimal)>::empty());
        (seq![(b, consumed)], Seq::empty(), Seq::empty())
    } else {
        let share = shares[i as int];
        let (n, gone, _) = share_paid(b, consumed, precision, d, o, swaps, share)->0;
        lemma_paid_one(b, consumed, precision, d, o, swaps, shares, i);
        let (left, received) = lemma_share_step(b, consumed, precision, d, o, swaps, share);
        let (trace, lefts, gots) = lemma_shares_steps(
            n,
            gone,
            precision,
            d,
            o,
            swaps,
            shares,
            i + 1,
        );
        let t = seq![(b, consumed)] + trace;
        let ls = seq![left] + lefts;
        let gs = seq![received] + gots;
        let rest = shares.skip(i as int);
        let tail = shares.skip(i + 1int);
        assert forall|k: int| 0 <= k < rest.len() implies share_step(
            t[k],
            t[k + 1],
            precision,
            d,
            o,
            swaps,
            #[trigger] rest[k],
            ls[k],
            gs[k],
        ) by {
            if k > 0 {
                assert(rest[k] == tail[k - 1]);
                assert(t[k] == trace[k - 1] && t[k + 1] == trace[k]);
            } else {
                assert(t[1] == trace[0]);
            }
        }
        assert(t.last() == trace.last());
        (t, ls, gs)
    }
}

/// Paying out shares pays one and then the rest.
proof fn lemma_paid_one(
    b: Batch,
    consumed: Decimal,
    precision: u8,
    d: Drt,
    o: OrderBrief,
    swaps: Seq<(usize, Decimal)>,
    shares: Seq<(usize, Decimal)>,
    i: nat,
)
    requires
        i < shares.len(),
        paid_out(b, consumed, precision, d, o, swaps, shares, i) is Some,
    ensures
        share_paid(b, consumed, precision, d, o, swaps, shares[i as int]) is Some,
        ({
            let (n, gone, _) = share_paid(
                b,
                consumed,
                precision,
                d,
                o,
                swaps,
                shares[i as int],
            )->0;
            &&& paid_out(b, consumed, precision, d, o, swaps, shares, i) == paid_out(
                n,
                gone,
                precision,
                d,
                o,
                swaps,
                shares,
                i + 1,
            )
            &&& n.t.pair.book == b.t.pair.book
            &&& n.t.pair.precision == b.t.pair.precision
        }),
{
}

// ---- rounds and batches ----

/// Whether the best order of the other side was closed without a trade: it has no price, or what the
/// market orders could spend on it, or every part of that, is too small to count.
pub open spec fn batch_closed(
    a: Batch,
    b: Batch,
    d: Drt,
    total: Decimal,
    avail: Decimal,
    cuts: Seq<Decimal>,
) -> bool {
    let p = a.t.pair;
    let q = p.book.queue(opposite(d));
    let o = q[0];
    &&& first_gone(q, b.t.pair.book.queue(opposite(d)))
    &&& b.t.pair.book.queue(d) == p.book.queue(d)
    &&& b.closes == a.closes.push(o.id)
    &&& b.transfers == a.transfers && b.remain == a.remain && b.t.msgs == a.t.msgs
    &&& b.t.pair.logs == p.logs && b.t.pair.price == p.price
    &&& {
        ||| o.price.val() <= epsilon().val()
        ||| spendable_on(d, o, total, avail) && avail.val() <= epsilon().val()
        ||| spendable_on(d, o, total, avail) && shared_fairly(
            p.precision,
            avail,
            total,
            a.remain,
            cuts,
            Seq::empty(),
        )
    }
}

/// The steps of a round in which market orders share an order.
pub struct Sharing {
    pub avail: Decimal,
    pub cuts: Seq<Decimal>,
    pub shares: Seq<(usize, Decimal)>,
    pub trace: Seq<(Batch, Decimal)>,
    pub lefts: Seq<Decimal>,
    pub received: Seq<Decimal>,
    pub left: Decimal,
}

/// Whether an order is known to have received what it was to get for `gone` at its limit.
pub open spec fn received_for(d: Drt, o: OrderBrief, gone: Decimal, n: OrderBrief) -> bool {
    let one = Decimal::step(0);
    exists|got: Decimal| near(
        n.dst_volume.val(),
        o.dst_volume.val() + (#[trigger] got.val()),
        sum_off(o.dst_volume, got),
        sum_off(o.dst_volume, got),
    ) && match d {
        Drt::Buy => near(
            got.val() * one,
            o.price.val() * gone.val(),
            product_over(o.price, gone),
            product_under(o.price, gone),
        ),
        Drt::Sell => near(
            got.val() * o.price.val(),
            gone.val() * one,
            quotient_over(gone, o.price),
            quotient_under(gone, o.price),
        ),
    }
}

/// Whether the market orders shared the best order of the other side: they spend on it what they
/// have or what it can pay for at its limit, in proportion to what each has left, and each gets what
/// their share is worth at that limit. The order has less left by what is gone of it, and is closed
/// where that cannot be traded.
pub open spec fn batch_traded(
    a: Batch,
    b: Batch,
    precision: u8,
    d: Drt,
    swaps: Seq<(usize, Decimal)>,
    total: Decimal,
    x: Sharing,
) -> bool {
    let p = a.t.pair;
    let q = p.book.queue(opposite(d));
    let r = b.t.pair.book.queue(opposite(d));
    let o = q[0];
    let unit = Decimal::step(p.precision as nat);
    let (e, gone) = x.trace.last();
    &&& q.len() > 0
    &&& spendable_on(d, o, total, x.avail)
    &&& shared_fairly(p.precision, x.avail, total, a.remain, x.cuts, x.shares)
    &&& shares_steps(x.trace, precision, d, o, swaps, x.shares, x.lefts, x.received)
    &&& x.trace[0].0 == a && x.trace[0].1.val() == 0
    &&& b.transfers == e.transfers && b.remain == e.remain && b.t.msgs == e.t.msgs
    &&& b.t.pair.logs == e.t.pair.logs
    &&& if gone.val() <= epsilon().val() {
        first_gone(q, r) && b.t.pair.price == e.t.pair.price
    } else {
        &&& crate::price_laws::spends(opposite(d), q, r, gone, x.left, unit)
        &&& first_gone(q, r) || received_for(d, o, gone, r[0])
        &&& b.t.pair.price == o.price.truncated(p.precision as nat)
    }
    &&& b.closes == if first_gone(q, r) {
        e.closes.push(o.id)
    } else {
        e.closes
    }
    &&& b.t.pair.book.queue(d) == p.book.queue(d)
}

/// What a round of a batch comes to, the market orders having `total` left.
#[verifier::opaque]
pub open spec fn batch_step(
    a: Batch,
    b: Batch,
    precision: u8,
    d: Drt,
    swaps: Seq<(usize, Decimal)>,
    total: Decimal,
) -> bool {
    ||| exists|avail: Decimal, cuts: Seq<Decimal>| #[trigger]
        batch_closed(a, b, d, total, avail, cuts)
    ||| exists|x: Sharing| #[trigger] batch_traded(a, b, precision, d, swaps, total, x)
}

/// What market orders can spend on an order.
proof fn lemma_spendable(d: Drt, o: OrderBrief, total: Decimal)
    requires
        o.price.val() > 0,
        available(d, o, total) is Some,
    ensures
        spendable_on(d, o, total, available(d, o, total)->0),
        total.valid() ==> (available(d, o, total)->0).valid(),
{
    let avail = available(d, o, total)->0;
    o.src_volume.lemma_product(o.price);
    o.src_volume.lemma_quotient(o.price);
    let w = Decimal::step(0);
    Decimal::lemma_steps(0, 0);
    let p = o.price.val();
    let most = match d {
        Drt::Buy => decimal_product(o.src_volume, o.price)->0,
        Drt::Sell => decimal_quotient(o.src_volume, o.price)->0,
    };
    let (x, y) = (avail.val(), most.val());
    assert(x <= y ==> x * p <= y * p && x * w <= y * w) by (nonlinear_arith)
        requires
            p > 0,
            w > 0,
    ;
}

/// A sum of volumes can be held.
proof fn lemma_total_held(v: Seq<Decimal>)
    requires
        total_of(v) is Some,
    ensures
        (total_of(v)->0).valid(),
    decreases v.len(),
{
    Decimal::lemma_of(0, 0);
    if v.len() > 0 {
        lemma_total_held(v.drop_last());
        (total_of(v.drop_last())->0).lemma_sum(v.last());
    }
}

/// A round of a batch shares the best order of the other side in proportion, or closes one that
/// cannot trade.
#[verifier::spinoff_prover]
#[verifier::rlimit(60)]
pub proof fn law_batch_round(
    b: Batch,
    total: Decimal,
    precision: u8,
    unit: Decimal,
    d: Drt,
    swaps: Seq<(usize, Decimal)>,
)
    requires
        b.t.pair.book.wf(),
        numbers_held(b.t.pair.book),
        b.t.pair.precision <= MAX_SCALE,
        unit == Decimal::of(1, b.t.pair.precision as nat),
        b.remain.len() == swaps.len(),
        swaps.len() <= usize::MAX,
        total_of(b.remain) == Some(total),
        batch_round(b, total, precision, unit, d, swaps) is Next,
    ensures
        ({
            let n = batch_round(b, total, precision, unit, d, swaps)->Next_0;
            &&& batch_step(b, n, precision, d, swaps, total)
            &&& n.t.pair.book.wf()
            &&& numbers_held(n.t.pair.book)
            &&& n.t.pair.precision == b.t.pair.precision
            &&& n.remain.len() == swaps.len()
        }),
{
    reveal(batch_step);
    let n = batch_round(b, total, precision, unit, d, swaps)->Next_0;
    let p = b.t.pair;
    let e = opposite(d);
    let q = p.book.queue(e);
    let o = q[0];
    p.book.lemma_cancel_best(e);
    lemma_units(p.precision);
    lemma_total_held(b.remain);
    assert(forall|i: int|
        0 <= i < q.len() ==> (#[trigger] q[i]).price.valid() && q[i].src_volume.valid());
    assert(o.src_volume.valid());
    crate::price_laws::lemma_first_gone_held(q);
    let avail = available(d, o, total)->0;
    if o.price.val() <= epsilon().val() {
        assert(batch_closed(b, n, d, total, avail, Seq::empty()));
    } else {
        lemma_spendable(d, o, total);
        if avail.val() <= epsilon().val() {
            assert(batch_closed(b, n, d, total, avail, Seq::empty()));
        } else {
            let shares = shared_out(p, unit, avail, total, b.remain)->0;
            let cuts = law_shared_in_proportion(p, unit, avail, total, b.remain);
            if shares.len() == 0 {
                assert(shares =~= Seq::<(usize, Decimal)>::empty());
                assert(batch_closed(b, n, d, total, avail, cuts));
            } else {
                lemma_batch_trade(b, total, precision, unit, d, swaps, avail, cuts, shares);
            }
        }
    }
}

#[verifier::spinoff_prover]
#[verifier::rlimit(60)]
proof fn lemma_batch_trade(
    b: Batch,
    total: Decimal,
    precision: u8,
    unit: Decimal,
    d: Drt,
    swaps: Seq<(usize, Decimal)>,
    avail: Decimal,
    cuts: Seq<Decimal>,
    shares: Seq<(usize, Decimal)>,
)
    requires
        b.t.pair.book.wf(),
        numbers_held(b.t.pair.book),
        b.t.pair.precision <= MAX_SCALE,
        unit == Decimal::of(1, b.t.pair.precision as nat),
        b.remain.len() == swaps.len(),
        swaps.len() <= usize::MAX,
        batch_round(b, total, precision, unit, d, swaps) is Next,
        b.t.pair.book.queue(opposite(d)).len() > 0,
        b.t.pair.book.queue(opposite(d))[0].price.val() > epsilon().val(),
        epsilon().val() > 0,
        available(d, b.t.pair.book.queue(opposite(d))[0], total) == Some(avail),
        avail.val() > epsilon().val(),
        shared_out(b.t.pair, unit, avail, total, b.remain) == Some(shares),
        shares.len() > 0,
        spendable_on(d, b.t.pair.book.queue(opposite(d))[0], total, avail),
        shared_fairly(b.t.pair.precision, avail, total, b.remain, cuts, shares),
    ensures
        ({
            let n = batch_round(b, total, precision, unit, d, swaps)->Next_0;
            &&& batch_step(b, n, precision, d, swaps, total)
            &&& n.t.pair.book.wf()
            &&& numbers_held(n.t.pair.book)
            &&& n.t.pair.precision == b.t.pair.precision
            &&& n.remain.len() == swaps.len()
        }),
{
    reveal(batch_step);
    let n = batch_round(b, total, precision, unit, d, swaps)->Next_0;
    let p = b.t.pair;
    let side = opposite(d);
    let q = p.book.queue(side);
    let o = q[0];
    let zero = Decimal::of(0, 0);
    Decimal::lemma_of(0, 0);
    Decimal::lemma_zero();
    p.book.lemma_cancel_best(side);
    assert(forall|i: int|
        0 <= i < q.len() ==> (#[trigger] q[i]).price.valid() && q[i].src_volume.valid());
    assert(o.src_volume.valid());
    assert(o.price.valid());
    let (trace, lefts, received) = lemma_shares_steps(
        b,
        zero,
        precision,
        d,
        o,
        swaps,
        shares,
        0,
    );
    assert(shares.skip(0) =~= shares);
    let (e, gone) = trace.last();
    crate::price_laws::lemma_first_gone_held(q);
    let left = decimal_difference(o.src_volume, gone)->0;
    let x = Sharing { avail, cuts, shares, trace, lefts, received, left };
    let r = n.t.pair.book.queue(side);
    if gone.val() > epsilon().val() {
        let u = Decimal::step(p.precision as nat);
        Decimal::lemma_of(1, p.precision as nat);
        assert(1 * u == u) by (nonlinear_arith);
        o.src_volume.lemma_difference(gone);
        let done = left.val() <= unit.val() || (d == Drt::Sell && buy_spent(
            e.t.pair,
            unit,
            left,
            o.price,
        ) == Some(true));
        if d == Drt::Sell {
            crate::price_laws::lemma_spent(e.t.pair, unit, left, o.price);
        }
        let got = match d {
            Drt::Buy => decimal_sum(o.dst_volume, decimal_product(o.price, gone)->0)->0,
            Drt::Sell => decimal_sum(o.dst_volume, decimal_quotient(gone, o.price)->0)->0,
        };
        p.book.lemma_update_best(side, left, got);
        let kept = OrderBrief { src_volume: left, dst_volume: got, ..o };
        assert(r == if done {
            q.drop_first()
        } else {
            q.update(0, kept)
        });
        crate::price_laws::lemma_spends(side, q, r, done, kept);
        if !done {
            let worth = match d {
                Drt::Buy => decimal_product(o.price, gone)->0,
                Drt::Sell => decimal_quotient(gone, o.price)->0,
            };
            let more = worth.val();
            assert(received_for(d, o, gone, r[0]));
        }
    }
    assert(batch_traded(b, n, precision, d, swaps, total, x));
}

/// Whether a state follows another one by a round of a batch.
pub open spec fn batch_follows(
    a: Batch,
    b: Batch,
    precision: u8,
    d: Drt,
    swaps: Seq<(usize, Decimal)>,
) -> bool {
    total_of(a.remain) matches Some(total) && batch_step(a, b, precision, d, swaps, total)
}

/// Whether states follow each other, each by a round of a batch.
pub open spec fn batch_steps(
    trace: Seq<Batch>,
    precision: u8,
    d: Drt,
    swaps: Seq<(usize, Decimal)>,
) -> bool {
    trace.len() > 0 && forall|i: int|
        0 < i < trace.len() ==> batch_follows(
            trace[i - 1],
            #[trigger] trace[i],
            precision,
            d,
            swaps,
        )
}

/// A round before other rounds.
proof fn lemma_one_step_more(
    b: Batch,
    rest: Seq<Batch>,
    precision: u8,
    d: Drt,
    swaps: Seq<(usize, Decimal)>,
)
    requires
        batch_steps(rest, precision, d, swaps),
        total_of(b.remain) is Some,
        batch_step(b, rest[0], precision, d, swaps, total_of(b.remain)->0),
    ensures
        batch_steps(seq![b] + rest, precision, d, swaps),
        (seq![b] + rest)[0] == b,
        (seq![b] + rest).last() == rest.last(),
{
    let trace = seq![b] + rest;
    assert forall|i: int| 0 < i < trace.len() implies batch_follows(
        trace[i - 1],
        #[trigger] trace[i],
        precision,
        d,
        swaps,
    ) by {
        assert(trace[i] == rest[i - 1]);
        if i > 1 {
            assert(trace[i - 1] == rest[i - 2]);
        }
    }
}

#[verifier::spinoff_prover]
#[verifier::rlimit(60)]
proof fn lemma_batch_all_steps(
    b: Batch,
    precision: u8,
    unit: Decimal,
    d: Drt,
    swaps: Seq<(usize, Decimal)>,
    rounds: nat,
) -> (trace: Seq<Batch>)
    requires
        b.t.pair.book.wf(),
        numbers_held(b.t.pair.book),
        b.t.pair.precision <= MAX_SCALE,
        unit == Decimal::of(1, b.t.pair.precision as nat),
        b.remain.len() == swaps.len(),
        swaps.len() <= usize::MAX,
        batch_all(b, precision, unit, d, swaps, rounds) is Some,
    ensures
        batch_steps(trace, precision, d, swaps),
        trace[0] == b,
        trace.last() == batch_all(b, precision, unit, d, swaps, rounds)->0,
        trace.len() <= rounds + 1,
        trace.len() == rounds + 1 || (total_of(trace.last().remain)->0).val() <= epsilon().val()
            || trace.last().t.pair.book.queue(opposite(d)).len() == 0,
    decreases rounds,
{
    let total = total_of(b.remain)->0;
    if total.val() <= epsilon().val() || rounds == 0 {
        seq![b]
    } else {
        match batch_round(b, total, precision, unit, d, swaps) {
            Round::Next(n) => {
                law_batch_round(b, total, precision, unit, d, swaps);
                let rest = lemma_batch_all_steps(
                    n,
                    precision,
                    unit,
                    d,
                    swaps,
                    (rounds - 1) as nat,
                );
                let trace = seq![b] + rest;
                lemma_one_step_more(b, rest, precision, d, swaps);
                trace
            },
            _ => seq![b],
        }
    }
}

/// Market orders of one frame and side are nothing but rounds in which they share the best order of
/// the other side: for no more than it can pay at its limit, in proportion to what each has left,
/// each getting what their share is worth at that limit. They end when they are spent, when nobody
/// is left to trade with, or after the most rounds that there may be.
pub proof fn law_batched_in_proportion(
    t: Trading,
    precision: u8,
    d: Drt,
    swaps: Seq<(usize, Decimal)>,
)
    requires
        t.pair.book.wf(),
        numbers_held(t.pair.book),
        swaps.len() <= usize::MAX,
        batched(t, precision, d, swaps) is Some,
    ensures
        exists|trace: Seq<Batch>| #[trigger]
            batch_steps(trace, precision, d, swaps) && trace[0] == (Batch {
                t,
                transfers: Seq::empty(),
                closes: Seq::empty(),
                remain: swaps.map_values(|s: (usize, Decimal)| s.1),
            }) && trace.last() == batched(t, precision, d, swaps)->0 && (trace.len()
                == BATCH_ROUNDS + 1 || (total_of(trace.last().remain)->0).val()
                <= epsilon().val() || trace.last().t.pair.book.queue(opposite(d)).len() == 0),
{
    let unit = Decimal::unit_of(t.pair.precision)->0;
    let b = Batch {
        t,
        transfers: Seq::empty(),
        closes: Seq::empty(),
        remain: swaps.map_values(|s: (usize, Decimal)| s.1),
    };
    let trace = lemma_batch_all_steps(b, precision, unit, d, swaps, BATCH_ROUNDS as nat);
    assert(batch_steps(trace, precision, d, swaps));
}

} // verus!
