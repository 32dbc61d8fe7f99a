//! How far products, quotients and sums may be off, and what cutting off leaves.

use crate::decimal::{
    decimal_difference, decimal_product, decimal_quotient, decimal_sum, Decimal, MAX_SCALE,
};
use vstd::prelude::*;

verus! {

/// What is above zero of a number.
pub open spec fn above_zero(x: int) -> int {
    if x > 0 {
        x
    } else {
        0
    }
}

/// By how much a computed product is larger than the exact one, nothing where it is not.
///
/// Like the three that follow, this counts in the units of a product of two values: a value counts
/// units of ten to the power of minus 28, a product of two of them the square of that.
pub open spec fn product_over(a: Decimal, b: Decimal) -> int {
    match decimal_product(a, b) {
        Some(v) => above_zero(v.val() * Decimal::step(0) - a.val() * b.val()),
        None => 0,
    }
}

/// By how much a computed product is smaller than the exact one, nothing where it is not.
pub open spec fn product_under(a: Decimal, b: Decimal) -> int {
    match decimal_product(a, b) {
        Some(v) => above_zero(a.val() * b.val() - v.val() * Decimal::step(0)),
        None => 0,
    }
}

/// By how much a computed quotient times the divisor is larger than the dividend, nothing where it
/// is not.
pub open spec fn quotient_over(a: Decimal, b: Decimal) -> int {
    match decimal_quotient(a, b) {
        Some(v) => above_zero(v.val() * b.val() - a.val() * Decimal::step(0)),
        None => 0,
    }
}

/// By how much a computed quotient times the divisor is smaller than the dividend, nothing where it
/// is not.
pub open spec fn quotient_under(a: Decimal, b: Decimal) -> int {
    match decimal_quotient(a, b) {
        Some(v) => above_zero(a.val() * Decimal::step(0) - v.val() * b.val()),
        None => 0,
    }
}

/// By how much a computed sum is off.
pub open spec fn sum_off(a: Decimal, b: Decimal) -> int {
    match decimal_sum(a, b) {
        Some(v) => above_zero(v.val() - a.val() - b.val()) + above_zero(
            a.val() + b.val() - v.val(),
        ),
        None => 0,
    }
}

/// By how much a computed difference is off.
pub open spec fn difference_off(a: Decimal, b: Decimal) -> int {
    match decimal_difference(a, b) {
        Some(v) => above_zero(v.val() - a.val() + b.val()) + above_zero(
            a.val() - b.val() - v.val(),
        ),
        None => 0,
    }
}

/// Products, sums and differences are not off where they fit, and a quotient is off by at most one
/// in its last decimal place.
pub proof fn law_how_far_off(a: Decimal, b: Decimal)
    requires
        a.valid(),
        b.valid(),
    ensures
        a.multiplies_exactly(b) ==> product_over(a, b) == 0 && product_under(a, b) == 0,
        a.aligned_within(b, a.val() + b.val()) ==> sum_off(a, b) == 0,
        a.aligned_within(b, a.val() - b.val()) ==> difference_off(a, b) == 0,
        b.val() > 0 && decimal_quotient(a, b) is Some ==> {
            let last = Decimal::step((decimal_quotient(a, b)->0).places()) * b.val();
            quotient_over(a, b) <= last && quotient_under(a, b) <= last
        },
{
    a.lemma_product(b);
    a.lemma_sum(b);
    a.lemma_difference(b);
    a.lemma_quotient(b);
    if b.val() > 0 && decimal_quotient(a, b) is Some {
        let v = decimal_quotient(a, b)->0;
        let u = Decimal::step(v.places());
        Decimal::lemma_steps(0, v.places());
        assert(u * b.val() >= 0) by (nonlinear_arith)
            requires
                u > 0,
                b.val() > 0,
        ;
    }
}

/// A number that is cut off stays on its side of zero and loses less than one unit, whatever the
/// precision.
pub(crate) proof fn lemma_cut_by_less(v: Decimal, precision: u8)
    requires
        v.valid(),
        precision <= MAX_SCALE,
    ensures
        v.truncated(precision as nat).valid(),
        v.val() >= 0 ==> 0 <= v.truncated(precision as nat).val() <= v.val(),
        v.val() <= 0 ==> v.truncated(precision as nat).val() <= 0,
        v.val() < v.truncated(precision as nat).val() + Decimal::step(precision as nat),
        Decimal::step(precision as nat) > 0,
        Decimal::step(0) > 0,
{
    v.law_truncated(precision as nat);
    Decimal::lemma_steps(0, precision as nat);
}

} // verus!
