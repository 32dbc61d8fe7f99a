//! Decimal amounts: a whole number of up to 96 bits and a count of decimal places.
//!
//! The arithmetic that may round or overflow is that of `rust_decimal`; this module gives its
//! results names and states what the rest of the library relies on.

use vstd::arithmetic::power::{lemma_pow_positive, pow};
use vstd::prelude::*;

verus! {

/// The largest number of decimal places.
pub const MAX_SCALE: u32 = 28;

/// Numerators lie strictly between minus and plus two to the power of 96.
pub const NUMERATOR_BOUND: i128 = 0x1_0000_0000_0000_0000_0000_0000;

/// A decimal number: `num` divided by ten to the power of `scale`.
///
/// A zero may carry a minus sign, which shows where it is written. It is no smaller for that.
#[derive(Clone, Copy, Debug)]
pub struct Decimal {
    num: i128,
    scale: u32,
    minus: bool,
}

/// The sum that `rust_decimal` computes, or `None` where it overflows.
pub uninterp spec fn computed_sum(a: Decimal, b: Decimal) -> Option<Decimal>;

/// The difference that `rust_decimal` computes, or `None` where it overflows.
pub uninterp spec fn computed_difference(a: Decimal, b: Decimal) -> Option<Decimal>;

/// The product that `rust_decimal` computes, or `None` where it overflows.
pub uninterp spec fn computed_product(a: Decimal, b: Decimal) -> Option<Decimal>;

/// The quotient that `rust_decimal` computes, or `None` where it overflows or `b` is zero.
pub uninterp spec fn computed_quotient(a: Decimal, b: Decimal) -> Option<Decimal>;

/// Whether a computed number is on the same side of zero as the exact one, or is zero.
pub open spec fn same_side(computed: int, exact: int) -> bool {
    &&& exact >= 0 ==> computed >= 0
    &&& exact <= 0 ==> computed <= 0
}

/// A result that may be rounded: a number that can be held, on the same side of zero as the exact
/// one.
pub open spec fn within_side(r: Option<Decimal>, exact: int) -> Option<Decimal> {
    match r {
        Some(v) => if v.valid() && same_side(v.val(), exact) {
            Some(v)
        } else {
            None
        },
        None => None,
    }
}

/// The sum of two numbers, or `None` where it overflows. It is exact, at the larger of the two
/// scales, where both numbers and the sum fit there; a zero gives back the other number. A sum
/// that is rounded keeps its side of zero. Both numbers are taken to be ones that can be held.
#[verifier::opaque]
pub open spec fn decimal_sum(a: Decimal, b: Decimal) -> Option<Decimal> {
    if !a.valid() || !b.valid() {
        within_side(computed_sum(a, b), a.val() + b.val())
    } else if a.val() == 0 {
        Some(b)
    } else if b.val() == 0 {
        Some(a)
    } else if a.aligned_within(b, a.val() + b.val()) {
        Some(Decimal::exactly(a.val() + b.val(), a.finest(b)))
    } else {
        within_side(computed_sum(a, b), a.val() + b.val())
    }
}

/// The difference of two numbers, or `None` where it overflows. It is exact, at the larger of the
/// two scales, where both numbers and the difference fit there; a zero gives back the other
/// number, with the sign that it has on its side. A difference that is rounded keeps its side of
/// zero. Both numbers are taken to be ones that can be held.
#[verifier::opaque]
pub open spec fn decimal_difference(a: Decimal, b: Decimal) -> Option<Decimal> {
    if !a.valid() || !b.valid() {
        within_side(computed_difference(a, b), a.val() - b.val())
    } else if a.val() == 0 && b.val() == 0 {
        Some(b)
    } else if a.val() == 0 {
        Some(b.negated())
    } else if b.val() == 0 {
        Some(a)
    } else if a.aligned_within(b, a.val() - b.val()) {
        Some(Decimal::exactly(a.val() - b.val(), a.finest(b)))
    } else {
        within_side(computed_difference(a, b), a.val() - b.val())
    }
}

/// The product of two numbers, or `None` where it overflows. A zero gives zero. The numerators
/// are multiplied and the scales added where these can be held. A product that is rounded keeps
/// its side of zero. Both numbers are taken to be ones that can be held.
#[verifier::opaque]
pub open spec fn decimal_product(a: Decimal, b: Decimal) -> Option<Decimal> {
    if !a.valid() || !b.valid() {
        within_side(computed_product(a, b), a.val() * b.val())
    } else if a.val() == 0 || b.val() == 0 {
        Some(Decimal::of(0, 0))
    } else if a.multiplies_exactly(b) {
        Some(Decimal::of(a.numerator() * b.numerator(), a.places() + b.places()))
    } else {
        within_side(computed_product(a, b), a.val() * b.val())
    }
}

/// Whether a number is the quotient of two others but for at most one in its last decimal place.
pub open spec fn nearly_quotient(v: Decimal, a: Decimal, b: Decimal) -> bool {
    let off = v.val() * b.val() - a.val() * Decimal::step(0);
    let bound = Decimal::step(v.places()) * b.val();
    if b.val() > 0 {
        -bound <= off <= bound
    } else {
        bound <= off <= -bound
    }
}

/// The quotient of two numbers, or `None` where it overflows or the divisor is zero. A zero
/// dividend gives zero. A quotient keeps its side of zero and is off by at most one in its last
/// decimal place.
#[verifier::opaque]
pub open spec fn decimal_quotient(a: Decimal, b: Decimal) -> Option<Decimal> {
    if b.val() == 0 {
        None
    } else if a.val() == 0 {
        Some(Decimal::of(0, 0))
    } else {
        match within_side(computed_quotient(a, b), a.val() * b.val()) {
            Some(v) => if nearly_quotient(v, a, b) {
                Some(v)
            } else {
                None
            },
            None => None,
        }
    }
}

/// The text that `rust_decimal` writes for a number.
pub uninterp spec fn decimal_text(d: Decimal) -> Seq<char>;

/// The text that `rust_decimal` writes for a number with a fixed count of decimal places.
pub uninterp spec fn decimal_fixed(d: Decimal, places: u8) -> Seq<char>;

/// The number that `rust_decimal` reads from a text, or `None` where it reads none.
pub uninterp spec fn decimal_parsed(s: Seq<char>) -> Option<Decimal>;

/// The sum of two results, `None` where one of them is or where it overflows.
pub open spec fn opt_sum(a: Option<Decimal>, b: Option<Decimal>) -> Option<Decimal> {
    if a is Some && b is Some {
        decimal_sum(a->0, b->0)
    } else {
        None
    }
}

/// The difference of two results, `None` where one of them is or where it overflows.
pub open spec fn opt_difference(a: Option<Decimal>, b: Option<Decimal>) -> Option<Decimal> {
    if a is Some && b is Some {
        decimal_difference(a->0, b->0)
    } else {
        None
    }
}

/// The product of two results, `None` where one of them is or where it overflows.
pub open spec fn opt_product(a: Option<Decimal>, b: Option<Decimal>) -> Option<Decimal> {
    if a is Some && b is Some {
        decimal_product(a->0, b->0)
    } else {
        None
    }
}

/// The quotient of two results, `None` where one of them is or where there is none.
pub open spec fn opt_quotient(a: Option<Decimal>, b: Option<Decimal>) -> Option<Decimal> {
    if a is Some && b is Some {
        decimal_quotient(a->0, b->0)
    } else {
        None
    }
}

/// The smaller of two results, `None` where one of them is.
pub open spec fn opt_least(a: Option<Decimal>, b: Option<Decimal>) -> Option<Decimal> {
    if a is Some && b is Some {
        Some((a->0).least(b->0))
    } else {
        None
    }
}

/// A result cut off after `dp` decimal places.
pub open spec fn opt_truncated(a: Option<Decimal>, dp: u8) -> Option<Decimal> {
    match a {
        Some(v) => Some(v.truncated(dp as nat)),
        None => None,
    }
}

/// The quotient of two integers with the fraction dropped.
pub open spec fn quotient_toward_zero(a: int, b: int) -> int {
    if a < 0 {
        -((-a) / b)
    } else {
        a / b
    }
}

/// The quotient of two integers rounded to the nearest one, a tie to the even one.
pub open spec fn quotient_half_even(a: int, b: int) -> int {
    let m = if a < 0 { -a } else { a };
    let q = m / b;
    let r = m % b;
    let n = if 2 * r > b || (2 * r == b && q % 2 == 1) { q + 1 } else { q };
    if a < 0 {
        -n
    } else {
        n
    }
}

impl Decimal {
    #[verifier::type_invariant]
    spec fn in_range(self) -> bool {
        &&& self.scale <= MAX_SCALE
        &&& -NUMERATOR_BOUND < self.num < NUMERATOR_BOUND
        &&& self.signed()
    }

    /// Whether the sign is that of the numerator. A zero may have either.
    pub closed spec fn signed(self) -> bool {
        &&& self.num < 0 ==> self.minus
        &&& self.num > 0 ==> !self.minus
    }

    /// The number in units of ten to the power of minus 28.
    pub closed spec fn val(self) -> int {
        self.num * pow(10, (MAX_SCALE - self.scale) as nat)
    }

    /// The number of decimal places.
    pub closed spec fn places(self) -> nat {
        self.scale as nat
    }

    /// The number `num` at `scale` decimal places.
    pub closed spec fn of(num: int, scale: nat) -> Decimal {
        Decimal { num: num as i128, scale: scale as u32, minus: num < 0 }
    }

    /// The number of a value in units of ten to the power of minus 28, at `scale` decimal places.
    pub open spec fn exactly(value: int, scale: nat) -> Decimal {
        Decimal::of(value / Decimal::step(scale), scale)
    }

    /// The number with the opposite sign.
    pub closed spec fn negated(self) -> Decimal {
        Decimal { num: (-self.num) as i128, scale: self.scale, minus: !self.minus }
    }

    /// The number without its sign.
    pub closed spec fn magnitude(self) -> Decimal {
        if self.num < 0 {
            Decimal { num: (-self.num) as i128, scale: self.scale, minus: false }
        } else {
            Decimal { num: self.num, scale: self.scale, minus: false }
        }
    }

    /// The number cut off after `dp` decimal places.
    pub closed spec fn truncated(self, dp: nat) -> Decimal {
        if self.scale <= dp {
            self
        } else if self.num == 0 {
            Decimal { num: 0, scale: dp as u32, minus: self.minus }
        } else {
            Decimal::of(
                quotient_toward_zero(self.num as int, pow(10, (self.scale - dp) as nat)),
                dp,
            )
        }
    }

    /// The number rounded to `dp` decimal places, a tie to the even digit.
    pub closed spec fn rounded(self, dp: nat) -> Decimal {
        if self.scale <= dp {
            self
        } else if self.num == 0 {
            Decimal { num: 0, scale: dp as u32, minus: self.minus }
        } else {
            Decimal::of(
                quotient_half_even(self.num as int, pow(10, (self.scale - dp) as nat)),
                dp,
            )
        }
    }

    /// The smaller of the two, the first where they are equal.
    pub open spec fn least(self, other: Decimal) -> Decimal {
        if self.val() > other.val() {
            other
        } else {
            self
        }
    }

    /// The larger of the two, the first where they are equal.
    pub open spec fn greatest(self, other: Decimal) -> Decimal {
        if self.val() < other.val() {
            other
        } else {
            self
        }
    }

    /// Zero.
    #[verifier::allow_in_spec]
    pub fn zero() -> Decimal
        returns
            Decimal::of(0, 0),
    {
        Decimal { num: 0, scale: 0, minus: false }
    }

    /// One.
    #[verifier::allow_in_spec]
    pub fn one() -> Decimal
        returns
            Decimal::of(1, 0),
    {
        Decimal { num: 1, scale: 0, minus: false }
    }

    /// The number `num` divided by ten to the power of `scale`.
    pub fn new(num: i64, scale: u32) -> (r: Decimal)
        requires
            scale <= MAX_SCALE,
        ensures
            r == Decimal::of(num as int, scale as nat),
    {
        Decimal { num: num as i128, scale, minus: num < 0 }
    }

    /// One in the last of `places` decimal places, or `None` where there are too many.
    pub fn unit(places: u8) -> (r: Option<Decimal>)
        ensures
            r == Decimal::unit_of(places),
    {
        if places as u32 <= MAX_SCALE {
            Some(Decimal { num: 1, scale: places as u32, minus: false })
        } else {
            None
        }
    }

    /// One in the last of `places` decimal places, or `None` where there are too many.
    pub open spec fn unit_of(places: u8) -> Option<Decimal> {
        if places <= MAX_SCALE {
            Some(Decimal::of(1, places as nat))
        } else {
            None
        }
    }

    /// Whether the number is zero.
    pub fn is_zero(&self) -> (r: bool)
        ensures
            r == (self.val() == 0),
    {
        proof {
            lemma_pow_positive(10, (MAX_SCALE - self.scale) as nat);
            lemma_product_sign(self.num as int, pow(10, (MAX_SCALE - self.scale) as nat));
        }
        self.num == 0
    }

    /// The number with the opposite sign.
    pub fn neg(self) -> (r: Decimal)
        ensures
            r == self.negated(),
            r.val() == -self.val(),
    {
        proof {
            use_type_invariant(self);
            self.lemma_negated();
        }
        Decimal { num: -self.num, scale: self.scale, minus: !self.minus }
    }

    /// The number without its sign.
    pub fn abs(self) -> (r: Decimal)
        ensures
            r == self.magnitude(),
    {
        proof {
            use_type_invariant(self);
        }
        if self.num < 0 {
            Decimal { num: -self.num, scale: self.scale, minus: false }
        } else {
            Decimal { num: self.num, scale: self.scale, minus: false }
        }
    }

    /// The smaller of the two, the first where they are equal.
    pub fn min(self, other: Decimal) -> (r: Decimal)
        ensures
            r == self.least(other),
    {
        if self > other {
            other
        } else {
            self
        }
    }

    /// The larger of the two, the first where they are equal.
    pub fn max(self, other: Decimal) -> (r: Decimal)
        ensures
            r == self.greatest(other),
    {
        if self < other {
            other
        } else {
            self
        }
    }

    /// The number as a token or node id: the whole part, or `None` where it has a minus sign or
    /// does not fit in 64 bits.
    pub fn to_u64(&self) -> (r: Option<u64>)
        ensures
            r == self.whole(),
    {
        if self.minus {
            return None;
        }
        let whole = self.whole_part();
        if whole <= u64::MAX as i128 {
            Some(whole as u64)
        } else {
            None
        }
    }

    /// The whole part without its sign.
    fn whole_part(&self) -> (r: i128)
        ensures
            r == self.whole_magnitude(),
            0 <= r < NUMERATOR_BOUND,
    {
        proof {
            use_type_invariant(self);
        }
        let start: i128 = if self.num < 0 {
            -self.num
        } else {
            self.num
        };
        let mut num: i128 = start;
        let mut left: u32 = self.scale;
        proof {
            lemma_pow_zero();
            lemma_divide_by_one(start as int);
        }
        while left > 0
            invariant
                left <= self.scale,
                0 <= num <= start < NUMERATOR_BOUND,
                num == start as int / pow(10, (self.scale - left) as nat),
            decreases left,
        {
            proof {
                let e = (self.scale - left) as nat;
                lemma_pow_positive(10, e);
                lemma_pow_step(e);
                lemma_divide_twice(start as int, pow(10, e), 10);
            }
            num = num / 10;
            left = left - 1;
        }
        num
    }

    /// The whole part without its sign.
    pub closed spec fn whole_magnitude(self) -> int {
        (if self.num < 0 {
            -(self.num as int)
        } else {
            self.num as int
        }) / pow(10, self.scale as nat)
    }

    /// How many decimal places are written at most.
    pub open spec fn written_places(places: u8) -> nat {
        if places > MAX_SCALE {
            MAX_SCALE as nat
        } else {
            places as nat
        }
    }

    /// Whether the whole part is short enough for the number to be written with this many decimal
    /// places: together they have at most 31 digits.
    pub open spec fn fixed_fits(self, places: u8) -> bool {
        self.whole_magnitude() < pow(10, (31 - Decimal::written_places(places)) as nat)
    }

    /// Whether the whole part is short enough for the number to be written with this many decimal
    /// places.
    pub fn fits_fixed(&self, places: u8) -> (r: bool)
        ensures
            r == self.fixed_fits(places),
    {
        let whole = self.whole_part();
        let room: u32 = if places as u32 > MAX_SCALE {
            31 - MAX_SCALE
        } else {
            31 - places as u32
        };
        let mut bound: i128 = 1;
        let mut i: u32 = 0;
        proof {
            lemma_pow_zero();
        }
        while i < room
            invariant
                i <= room <= 31,
                bound == pow(10, i as nat),
            decreases room - i,
        {
            proof {
                lemma_pow_step(i as nat);
                lemma_pow_bound(i as nat);
            }
            bound = bound * 10;
            i = i + 1;
        }
        whole < bound
    }

    /// The whole part, or `None` where the number has a minus sign or does not fit in 64 bits.
    pub closed spec fn whole(self) -> Option<u64> {
        if self.minus || self.whole_magnitude() > u64::MAX {
            None
        } else {
            Some(self.whole_magnitude() as u64)
        }
    }

    /// The larger of the two scales.
    pub open spec fn finest(self, other: Decimal) -> nat {
        if self.places() < other.places() {
            other.places()
        } else {
            self.places()
        }
    }

    /// The two numbers brought to the larger of their scales, and the given combination of them,
    /// all lie within the numerators' bound.
    pub open spec fn aligned_within(self, other: Decimal, combined: int) -> bool {
        let unit = Decimal::step(self.finest(other));
        &&& -NUMERATOR_BOUND * unit < self.val() < NUMERATOR_BOUND * unit
        &&& -NUMERATOR_BOUND * unit < other.val() < NUMERATOR_BOUND * unit
        &&& -NUMERATOR_BOUND * unit < combined < NUMERATOR_BOUND * unit
    }

    /// Neither number is zero, and the product of their numerators and the sum of their scales can
    /// be held.
    pub open spec fn multiplies_exactly(self, other: Decimal) -> bool {
        &&& self.numerator() != 0
        &&& other.numerator() != 0
        &&& -NUMERATOR_BOUND < self.numerator() * other.numerator() < NUMERATOR_BOUND
        &&& self.places() + other.places() <= MAX_SCALE
    }

    /// The sum, by `rust_decimal::Decimal::checked_add`: `None` where it overflows. The sum is
    /// exact, and has the larger of the two scales, where both operands and the sum fit there. A
    /// zero operand gives back the other one.
    /// A result has parts that can be held and is on the same side of zero as the exact sum.
    #[verifier::external_body]
    fn outside_sum(self, other: Decimal) -> (r: Option<Decimal>)
        ensures
            r == computed_sum(self, other),
            r is Some ==> r->0.valid() && same_side(r->0.val(), self.val() + other.val()),
            self.val() != 0 && other.val() != 0 && self.aligned_within(
                other,
                self.val() + other.val(),
            ) ==> r == Some(Decimal::exactly(self.val() + other.val(), self.finest(other))),
            self.val() == 0 ==> r == Some(other),
            other.val() == 0 && self.val() != 0 ==> r == Some(self),
    {
        let mut a = rust_decimal::Decimal::from_i128_with_scale(self.num, self.scale);
        let mut b = rust_decimal::Decimal::from_i128_with_scale(other.num, other.scale);
        a.set_sign_negative(self.minus);
        b.set_sign_negative(other.minus);
        a.checked_add(b).map(
            |d| Decimal { num: d.mantissa(), scale: d.scale(), minus: d.is_sign_negative() },
        )
    }

    /// The sum of two numbers.
    pub(crate) fn checked_add(self, other: Decimal) -> (r: Option<Decimal>)
        ensures
            r == decimal_sum(self, other),
            r is Some ==> r->0.valid(),
            self.aligned_within(other, self.val() + other.val()) ==> r is Some && r->0.val()
                == self.val() + other.val(),
            self.val() == 0 ==> r == Some(other),
            other.val() == 0 && self.val() != 0 ==> r == Some(self),
    {
        proof {
            use_type_invariant(self);
            use_type_invariant(other);
            self.lemma_sum(other);
            reveal(decimal_sum);
        }
        self.outside_sum(other)
    }

    /// The difference, by `rust_decimal::Decimal::checked_sub`: `None` where it overflows. The
    /// difference is exact, and has the larger of the two scales, where both operands and the
    /// difference fit there. A zero subtrahend gives back the minuend, and a zero minuend the
    /// subtrahend with the opposite sign, or as it is where that is zero too.
    /// A result has parts that can be held and is on the same side of zero as the exact
    /// difference.
    #[verifier::external_body]
    fn outside_difference(self, other: Decimal) -> (r: Option<Decimal>)
        ensures
            r == computed_difference(self, other),
            r is Some ==> r->0.valid() && same_side(r->0.val(), self.val() - other.val()),
            self.val() != 0 && other.val() != 0 && self.aligned_within(
                other,
                self.val() - other.val(),
            ) ==> r == Some(Decimal::exactly(self.val() - other.val(), self.finest(other))),
            self.val() == 0 && other.val() != 0 ==> r == Some(other.negated()),
            self.val() == 0 && other.val() == 0 ==> r == Some(other),
            other.val() == 0 && self.val() != 0 ==> r == Some(self),
    {
        let mut a = rust_decimal::Decimal::from_i128_with_scale(self.num, self.scale);
        let mut b = rust_decimal::Decimal::from_i128_with_scale(other.num, other.scale);
        a.set_sign_negative(self.minus);
        b.set_sign_negative(other.minus);
        a.checked_sub(b).map(
            |d| Decimal { num: d.mantissa(), scale: d.scale(), minus: d.is_sign_negative() },
        )
    }

    /// The difference of two numbers.
    pub(crate) fn checked_sub(self, other: Decimal) -> (r: Option<Decimal>)
        ensures
            r == decimal_difference(self, other),
            r is Some ==> r->0.valid(),
            self.aligned_within(other, self.val() - other.val()) ==> r is Some && r->0.val()
                == self.val() - other.val(),
            other.val() == 0 && self.val() != 0 ==> r == Some(self),
    {
        proof {
            use_type_invariant(self);
            use_type_invariant(other);
            self.lemma_difference(other);
            reveal(decimal_difference);
        }
        self.outside_difference(other)
    }

    /// The product, by `rust_decimal::Decimal::checked_mul`: `None` where it overflows. A zero
    /// factor gives zero. Otherwise the numerators are multiplied and the scales added, where the
    /// numerators' product and the scales' sum can be held.
    /// A result has parts that can be held and is on the same side of zero as the exact product.
    #[verifier::external_body]
    fn outside_product(self, other: Decimal) -> (r: Option<Decimal>)
        ensures
            r == computed_product(self, other),
            r is Some ==> r->0.valid() && same_side(r->0.val(), self.val() * other.val()),
            self.val() == 0 || other.val() == 0 ==> r == Some(Decimal::of(0, 0)),
            self.multiplies_exactly(other) ==> r == Some(
                Decimal::of(
                    self.numerator() * other.numerator(),
                    self.places() + other.places(),
                ),
            ),
    {
        let mut a = rust_decimal::Decimal::from_i128_with_scale(self.num, self.scale);
        let mut b = rust_decimal::Decimal::from_i128_with_scale(other.num, other.scale);
        a.set_sign_negative(self.minus);
        b.set_sign_negative(other.minus);
        a.checked_mul(b).map(
            |d| Decimal { num: d.mantissa(), scale: d.scale(), minus: d.is_sign_negative() },
        )
    }

    /// The product of two numbers.
    pub(crate) fn checked_mul(self, other: Decimal) -> (r: Option<Decimal>)
        ensures
            r == decimal_product(self, other),
            r is Some ==> r->0.valid(),
    {
        proof {
            use_type_invariant(self);
            use_type_invariant(other);
            self.lemma_product(other);
            reveal(decimal_product);
        }
        self.outside_product(other)
    }

    /// The quotient, by `rust_decimal::Decimal::checked_div`: `None` where it overflows or the
    /// divisor is zero. A zero dividend gives zero.
    /// A result has parts that can be held, is on the same side of zero as the exact quotient, and
    /// is off by at most one in its last decimal place.
    #[verifier::external_body]
    fn outside_quotient(self, other: Decimal) -> (r: Option<Decimal>)
        ensures
            r == computed_quotient(self, other),
            r is Some ==> r->0.valid() && same_side(r->0.val(), self.val() * other.val()),
            r is Some ==> nearly_quotient(r->0, self, other),
            other.val() == 0 ==> r is None,
            self.val() == 0 && other.val() != 0 ==> r == Some(Decimal::of(0, 0)),
    {
        let mut a = rust_decimal::Decimal::from_i128_with_scale(self.num, self.scale);
        let mut b = rust_decimal::Decimal::from_i128_with_scale(other.num, other.scale);
        a.set_sign_negative(self.minus);
        b.set_sign_negative(other.minus);
        a.checked_div(b).map(
            |d| Decimal { num: d.mantissa(), scale: d.scale(), minus: d.is_sign_negative() },
        )
    }

    /// The quotient of two numbers.
    pub(crate) fn checked_div(self, other: Decimal) -> (r: Option<Decimal>)
        ensures
            r == decimal_quotient(self, other),
            r is Some ==> r->0.valid(),
    {
        proof {
            use_type_invariant(self);
            use_type_invariant(other);
            self.lemma_quotient(other);
            reveal(decimal_quotient);
        }
        self.outside_quotient(other)
    }

    /// The number cut off after `dp` decimal places, by
    /// `rust_decimal::Decimal::round_dp_with_strategy` with `RoundingStrategy::ToZero`.
    #[verifier::external_body]
    pub(crate) fn truncate(self, dp: u8) -> (r: Decimal)
        ensures
            r == self.truncated(dp as nat),
    {
        let mut a = rust_decimal::Decimal::from_i128_with_scale(self.num, self.scale);
        a.set_sign_negative(self.minus);
        let d = a.round_dp_with_strategy(dp as u32, rust_decimal::RoundingStrategy::ToZero);
        Decimal { num: d.mantissa(), scale: d.scale(), minus: d.is_sign_negative() }
    }

    /// The number rounded to `dp` decimal places, by `rust_decimal::Decimal::round_dp`, which
    /// takes a tie to the even digit.
    #[verifier::external_body]
    pub(crate) fn round_dp(self, dp: u8) -> (r: Decimal)
        ensures
            r == self.rounded(dp as nat),
    {
        let mut a = rust_decimal::Decimal::from_i128_with_scale(self.num, self.scale);
        a.set_sign_negative(self.minus);
        let d = a.round_dp(dp as u32);
        Decimal { num: d.mantissa(), scale: d.scale(), minus: d.is_sign_negative() }
    }

    /// Whether the first number is the smaller one, by the order of `rust_decimal::Decimal`,
    /// which is that of the values.
    #[verifier::external_body]
    fn less(&self, other: &Decimal) -> (r: bool)
        ensures
            r == (self.val() < other.val()),
    {
        let mut a = rust_decimal::Decimal::from_i128_with_scale(self.num, self.scale);
        let mut b = rust_decimal::Decimal::from_i128_with_scale(other.num, other.scale);
        a.set_sign_negative(self.minus);
        b.set_sign_negative(other.minus);
        a.lt(&b)
    }

    /// The number in decimal digits.
    pub fn text(&self) -> (r: String)
        ensures
            r@ == decimal_text(*self),
    {
        self.written()
    }

    /// The number in decimal digits, by the `Display` impl of `rust_decimal::Decimal`.
    #[verifier::external_body]
    fn written(&self) -> (r: String)
        ensures
            r@ == decimal_text(*self),
    {
        let mut a = rust_decimal::Decimal::from_i128_with_scale(self.num, self.scale);
        a.set_sign_negative(self.minus);
        a.to_string()
    }

    /// The number in decimal digits, with a fixed count of decimal places.
    pub fn fixed(&self, places: u8) -> (r: String)
        requires
            self.fixed_fits(places),
        ensures
            r@ == decimal_fixed(*self, places),
    {
        self.written_fixed(places)
    }

    /// The number in decimal digits with a fixed count of decimal places, by the `Display` impl of
    /// `rust_decimal::Decimal` with a precision. The buffer that it writes into has room for 32
    /// characters up to the last decimal place that a number can have.
    #[verifier::external_body]
    fn written_fixed(&self, places: u8) -> (r: String)
        requires
            self.fixed_fits(places),
        ensures
            r@ == decimal_fixed(*self, places),
    {
        let mut a = rust_decimal::Decimal::from_i128_with_scale(self.num, self.scale);
        a.set_sign_negative(self.minus);
        format!("{:.1$}", a, places as usize)
    }

    /// The number that a text stands for, by the `FromStr` impl of `rust_decimal::Decimal`: `None`
    /// where the text is no number or the number does not fit.
    /// A result has parts that can be held.
    #[verifier::external_body]
    pub(crate) fn parse(s: &str) -> (r: Option<Decimal>)
        ensures
            r == decimal_parsed(s@),
            r is Some ==> r->0.valid(),
    {
        s.parse::<rust_decimal::Decimal>()
            .ok()
            .map(
                |d| Decimal { num: d.mantissa(), scale: d.scale(), minus: d.is_sign_negative() },
            )
    }

    /// Changing the sign of a number changes the sign of its value.
    pub proof fn lemma_negated(self)
        requires
            self.valid(),
        ensures
            self.negated().valid(),
            self.negated().val() == -self.val(),
            self.negated().places() == self.places(),
    {
        lemma_pow_positive(10, (MAX_SCALE - self.scale) as nat);
        lemma_product_sign(self.num as int, pow(10, (MAX_SCALE - self.scale) as nat));
    }

    /// The magnitude of a number is its value without the sign.
    pub proof fn lemma_magnitude(self)
        requires
            self.valid(),
        ensures
            self.magnitude().valid(),
            self.magnitude().val() == if self.val() < 0 {
                -self.val()
            } else {
                self.val()
            },
            self.magnitude().places() == self.places(),
    {
        lemma_pow_positive(10, (MAX_SCALE - self.scale) as nat);
        lemma_product_sign(self.num as int, pow(10, (MAX_SCALE - self.scale) as nat));
    }

    /// The numerator.
    pub closed spec fn numerator(self) -> int {
        self.num as int
    }

    /// Zero and one have the values they are named after.
    pub proof fn lemma_zero()
        ensures
            Decimal::of(0, 0).val() == 0,
            Decimal::of(1, 0).val() > 0,
    {
        lemma_pow_positive(10, 28);
        lemma_product_sign(0, pow(10, 28));
        lemma_product_sign(1, pow(10, 28));
    }

    /// The parts and the value of a number of `scale` decimal places.
    pub proof fn lemma_of(num: int, scale: nat)
        requires
            scale <= MAX_SCALE,
            -NUMERATOR_BOUND < num < NUMERATOR_BOUND,
        ensures
            Decimal::of(num, scale).valid(),
            Decimal::of(num, scale).numerator() == num,
            Decimal::of(num, scale).places() == scale,
            Decimal::of(num, scale).val() == num * pow(10, (MAX_SCALE - scale) as nat),
            num > 0 ==> Decimal::of(num, scale).val() > 0,
    {
        lemma_pow_positive(10, (MAX_SCALE - scale) as nat);
        lemma_product_sign(num, pow(10, (MAX_SCALE - scale) as nat));
    }
}

/// A numerator that can be held, in larger units.
proof fn lemma_scaled(n: int, unit: int)
    requires
        unit > 0,
    ensures
        -NUMERATOR_BOUND < n < NUMERATOR_BOUND ==> -NUMERATOR_BOUND * unit < n * unit
            < NUMERATOR_BOUND * unit,
{
    let b = NUMERATOR_BOUND as int;
    if -b < n < b {
        assert(n * unit < b * unit && -b * unit < n * unit) by (nonlinear_arith)
            requires
                unit > 0,
                -b < n < b,
        ;
    }
}

impl Decimal {
    /// Whether the parts are those of a number that can be held.
    pub open spec fn valid(self) -> bool {
        &&& self.places() <= MAX_SCALE
        &&& -NUMERATOR_BOUND < self.numerator() < NUMERATOR_BOUND
        &&& self.signed()
    }

    /// A number is made up of its numerator and its decimal places, a zero of its sign too.
    pub proof fn lemma_parts(self)
        requires
            self.valid(),
        ensures
            self.val() != 0 ==> self == Decimal::of(self.numerator(), self.places()),
            self.val() == self.numerator() * Decimal::step(self.places()),
            self.val() == 0 <==> self.numerator() == 0,
            self.val() > 0 <==> self.numerator() > 0,
    {
        lemma_pow_positive(10, (MAX_SCALE - self.scale) as nat);
        lemma_product_sign(self.num as int, pow(10, (MAX_SCALE - self.scale) as nat));
    }

    /// The sum and the difference of two numbers of as many decimal places are exact where their
    /// numerators can be held.
    pub proof fn lemma_aligned(self, other: Decimal)
        requires
            self.valid(),
            other.valid(),
            self.places() == other.places(),
        ensures
            -NUMERATOR_BOUND < self.numerator() + other.numerator() < NUMERATOR_BOUND
                ==> self.aligned_within(other, self.val() + other.val()),
            -NUMERATOR_BOUND < self.numerator() - other.numerator() < NUMERATOR_BOUND
                ==> self.aligned_within(other, self.val() - other.val()),
    {
        self.lemma_parts();
        other.lemma_parts();
        let unit = Decimal::step(self.places());
        let a = self.numerator();
        let b = other.numerator();
        lemma_pow_positive(10, (MAX_SCALE - self.scale) as nat);
        lemma_scaled(a, unit);
        lemma_scaled(b, unit);
        lemma_scaled(a + b, unit);
        lemma_scaled(a - b, unit);
        assert((a + b) * unit == a * unit + b * unit) by (nonlinear_arith);
        assert((a - b) * unit == a * unit - b * unit) by (nonlinear_arith);
    }

    /// The value of a number is a whole count of the smallest units of every larger scale.
    pub proof fn lemma_multiple(self, scale: nat)
        requires
            self.valid(),
            self.places() <= scale <= MAX_SCALE,
        ensures
            self.val() % Decimal::step(scale) == 0,
    {
        let a = (scale - self.places()) as nat;
        let b = (MAX_SCALE - scale) as nat;
        lemma_pow_positive(10, b);
        vstd::arithmetic::power::lemma_pow_adds(10, a, b);
        let n = self.numerator();
        let x = pow(10, a);
        let u = pow(10, b);
        assert(n * (x * u) == (n * x) * u) by (nonlinear_arith);
        vstd::arithmetic::div_mod::lemma_mod_multiples_basic(n * x, u);
    }

    /// A value that is a whole count of the units of a scale, and not too large for it, is held
    /// exactly.
    proof fn lemma_exactly(value: int, scale: nat)
        requires
            scale <= MAX_SCALE,
            value % Decimal::step(scale) == 0,
            -NUMERATOR_BOUND * Decimal::step(scale) < value < NUMERATOR_BOUND * Decimal::step(
                scale,
            ),
        ensures
            Decimal::exactly(value, scale).valid(),
            Decimal::exactly(value, scale).val() == value,
            Decimal::exactly(value, scale).places() == scale,
    {
        let u = Decimal::step(scale);
        let b = NUMERATOR_BOUND as int;
        lemma_pow_positive(10, (MAX_SCALE - scale) as nat);
        vstd::arithmetic::div_mod::lemma_fundamental_div_mod(value, u);
        let q = value / u;
        assert(-b < q < b) by (nonlinear_arith)
            requires
                value == u * q,
                u > 0,
                -b * u < value < b * u,
        ;
        assert(u * q == q * u) by (nonlinear_arith);
        Decimal::lemma_of(q, scale);
    }

    /// A sum or a difference is a whole count of the units of the larger scale.
    proof fn lemma_combined(self, other: Decimal)
        requires
            self.valid(),
            other.valid(),
        ensures
            (self.val() + other.val()) % Decimal::step(self.finest(other)) == 0,
            (self.val() - other.val()) % Decimal::step(self.finest(other)) == 0,
    {
        let u = Decimal::step(self.finest(other));
        lemma_pow_positive(10, (MAX_SCALE - self.finest(other)) as nat);
        self.lemma_multiple(self.finest(other));
        other.lemma_multiple(self.finest(other));
        vstd::arithmetic::div_mod::lemma_mod_adds(self.val(), other.val(), u);
        vstd::arithmetic::div_mod::lemma_sub_mod_noop(self.val(), other.val(), u);
        vstd::arithmetic::div_mod::lemma_mod_bound(self.val() + other.val(), u);
        vstd::arithmetic::div_mod::lemma_small_mod(0, u as nat);
    }

    /// A sum can be held and is on the side of zero that the exact sum is on. It is the exact sum
    /// where the numbers and the sum fit at the larger scale.
    pub proof fn lemma_sum(self, other: Decimal)
        ensures
            decimal_sum(self, other) is Some ==> (decimal_sum(self, other)->0).valid()
                && same_side((decimal_sum(self, other)->0).val(), self.val() + other.val()),
            self.valid() && other.valid() && self.aligned_within(
                other,
                self.val() + other.val(),
            ) ==> decimal_sum(
                self,
                other,
            ) is Some && (decimal_sum(self, other)->0).val() == self.val() + other.val() && (
            decimal_sum(self, other)->0).places() <= self.finest(other),
            self.valid() && other.valid() && self.val() == 0 ==> decimal_sum(self, other) == Some(
                other,
            ),
            self.valid() && other.valid() && other.val() == 0 && self.val() != 0 ==> decimal_sum(
                self,
                other,
            ) == Some(self),
    {
        reveal(decimal_sum);
        if self.valid() && other.valid() {
            self.lemma_combined(other);
            if self.aligned_within(other, self.val() + other.val()) {
                Decimal::lemma_exactly(self.val() + other.val(), self.finest(other));
            }
        }
    }

    /// A difference can be held and is on the side of zero that the exact difference is on. It is
    /// the exact difference where the numbers and the difference fit at the larger scale.
    pub proof fn lemma_difference(self, other: Decimal)
        ensures
            decimal_difference(self, other) is Some ==> (decimal_difference(
                self,
                other,
            )->0).valid() && same_side(
                (decimal_difference(self, other)->0).val(),
                self.val() - other.val(),
            ),
            self.valid() && other.valid() && self.aligned_within(
                other,
                self.val() - other.val(),
            ) ==> decimal_difference(
                self,
                other,
            ) is Some && (decimal_difference(self, other)->0).val() == self.val() - other.val() && (
            decimal_difference(self, other)->0).places() <= self.finest(other),
            self.valid() && other.valid() && self.val() == 0 && other.val() != 0
                ==> decimal_difference(self, other) == Some(other.negated()),
            self.valid() && other.valid() && other.val() == 0 && self.val() != 0
                ==> decimal_difference(self, other) == Some(self),
    {
        reveal(decimal_difference);
        if self.valid() && other.valid() {
            self.lemma_combined(other);
            other.lemma_negated();
            if self.aligned_within(other, self.val() - other.val()) {
                Decimal::lemma_exactly(self.val() - other.val(), self.finest(other));
            }
        }
    }

    /// A product can be held and is on the side of zero that the exact product is on. It is the
    /// exact product where the product of the numerators and the sum of the scales can be held.
    pub proof fn lemma_product(self, other: Decimal)
        ensures
            decimal_product(self, other) is Some ==> (decimal_product(self, other)->0).valid()
                && same_side((decimal_product(self, other)->0).val(), self.val() * other.val()),
            self.valid() && other.valid() && (self.val() == 0 || other.val() == 0)
                ==> decimal_product(self, other) == Some(Decimal::of(0, 0)),
            self.valid() && other.valid() && self.multiplies_exactly(other) ==> decimal_product(self, other) == Some(
                Decimal::of(self.numerator() * other.numerator(), self.places() + other.places()),
            ),
            self.valid() && other.valid() && self.multiplies_exactly(other) ==> (decimal_product(
                self,
                other,
            )->0).val() * Decimal::step(0) == self.val() * other.val(),
    {
        reveal(decimal_product);
        if self.valid() && other.valid() {
            self.lemma_parts();
            other.lemma_parts();
            Decimal::lemma_zero();
            Decimal::lemma_of(0, 0);
            let a = self.numerator();
            let b = other.numerator();
            let x = Decimal::step(self.places());
            let y = Decimal::step(other.places());
            lemma_pow_positive(10, (MAX_SCALE - self.places()) as nat);
            lemma_pow_positive(10, (MAX_SCALE - other.places()) as nat);
            if self.val() == 0 || other.val() == 0 {
                assert(self.val() * other.val() == 0) by (nonlinear_arith)
                    requires
                        self.val() == 0 || other.val() == 0,
                ;
            } else if self.multiplies_exactly(other) {
                let z = pow(10, (MAX_SCALE - self.places() - other.places()) as nat);
                lemma_pow_positive(10, (MAX_SCALE - self.places() - other.places()) as nat);
                Decimal::lemma_of(a * b, self.places() + other.places());
                lemma_product_sign(a * b, z);
                assert(x * y > 0) by (nonlinear_arith)
                    requires
                        x > 0,
                        y > 0,
                ;
                lemma_product_sign(a * b, x * y);
                assert((a * x) * (b * y) == (a * b) * (x * y)) by (nonlinear_arith);
                let w = Decimal::step(0);
                vstd::arithmetic::power::lemma_pow_adds(
                    10,
                    (MAX_SCALE - self.places()) as nat,
                    (MAX_SCALE - other.places()) as nat,
                );
                vstd::arithmetic::power::lemma_pow_adds(
                    10,
                    (MAX_SCALE - self.places() - other.places()) as nat,
                    MAX_SCALE as nat,
                );
                assert(x * y == z * w);
                assert(((a * b) * z) * w == (a * b) * (z * w)) by (nonlinear_arith);
            }
        }
    }

    /// A quotient can be held, is on the side of zero that the exact quotient is on, and is off by
    /// at most one in its last decimal place.
    pub proof fn lemma_quotient(self, other: Decimal)
        ensures
            other.val() == 0 ==> decimal_quotient(self, other) is None,
            self.val() == 0 && other.val() != 0 ==> decimal_quotient(self, other) == Some(
                Decimal::of(0, 0),
            ),
            decimal_quotient(self, other) is Some ==> (decimal_quotient(self, other)->0).valid()
                && same_side((decimal_quotient(self, other)->0).val(), self.val() * other.val())
                && nearly_quotient(decimal_quotient(self, other)->0, self, other),
    {
        reveal(decimal_quotient);
        Decimal::lemma_zero();
        Decimal::lemma_of(0, 0);
        if self.val() == 0 {
            let b = other.val();
            let u = Decimal::step(0);
            lemma_pow_positive(10, MAX_SCALE as nat);
            assert(0 * b == 0 && 0 * u == 0) by (nonlinear_arith);
            lemma_product_sign(b, u);
            assert(u * b == b * u) by (nonlinear_arith);
        }
    }

    /// A number fits at its own scale.
    pub proof fn lemma_fits(self)
        requires
            self.valid(),
        ensures
            -NUMERATOR_BOUND * Decimal::step(self.places()) < self.val() < NUMERATOR_BOUND
                * Decimal::step(self.places()),
    {
        self.lemma_parts();
        lemma_pow_positive(10, (MAX_SCALE - self.places()) as nat);
        lemma_scaled(self.numerator(), Decimal::step(self.places()));
    }

    /// One in the last of more decimal places is smaller.
    pub proof fn lemma_steps(a: nat, b: nat)
        requires
            a <= b <= MAX_SCALE,
        ensures
            0 < Decimal::step(b) <= Decimal::step(a),
            a < b ==> Decimal::step(b) < Decimal::step(a),
    {
        lemma_pow_positive(10, (MAX_SCALE - b) as nat);
        if a < b {
            vstd::arithmetic::power::lemma_pow_strictly_increases(
                10,
                (MAX_SCALE - b) as nat,
                (MAX_SCALE - a) as nat,
            );
        }
    }

    /// What a number other than zero becomes that is cut off.
    pub proof fn lemma_truncated_parts(self, dp: nat)
        ensures
            self.places() > dp && self.numerator() != 0 ==> self.truncated(dp) == Decimal::of(
                quotient_toward_zero(
                    self.numerator(),
                    pow(10, (self.places() - dp) as nat),
                ),
                dp,
            ),
    {
    }

    /// One in the last of `dp` decimal places, in units of ten to the power of minus 28.
    pub open spec fn step(dp: nat) -> int {
        pow(10, (MAX_SCALE - dp) as nat)
    }

    /// Cutting a number off takes it toward zero, by less than one in the last decimal place that
    /// is left.
    pub proof fn law_truncated(self, dp: nat)
        requires
            self.valid(),
            dp <= MAX_SCALE,
        ensures
            self.truncated(dp).valid(),
            self.truncated(dp).places() <= dp,
            self.val() >= 0 ==> 0 <= self.truncated(dp).val() <= self.val(),
            self.val() <= 0 ==> self.val() <= self.truncated(dp).val() <= 0,
            self.val() - self.truncated(dp).val() < Decimal::step(dp),
            self.truncated(dp).val() - self.val() < Decimal::step(dp),
    {
        let n = if self.num < 0 { -(self.num as int) } else { self.num as int };
        lemma_pow_positive(10, (MAX_SCALE - self.scale) as nat);
        lemma_pow_positive(10, (MAX_SCALE - dp) as nat);
        lemma_product_sign(self.num as int, pow(10, (MAX_SCALE - self.scale) as nat));
        if self.scale > dp {
            let m = pow(10, (self.scale - dp) as nat);
            let u = pow(10, (MAX_SCALE - self.scale) as nat);
            lemma_pow_positive(10, (self.scale - dp) as nat);
            vstd::arithmetic::power::lemma_pow_adds(
                10,
                (self.scale - dp) as nat,
                (MAX_SCALE - self.scale) as nat,
            );
            lemma_cut(n, m, u);
            lemma_product_sign(n / m, m * u);
            assert(self.truncated(dp).val() == quotient_toward_zero(self.num as int, m) * (m * u));
        }
    }

    /// A number with no more decimal places than are asked for is not cut off.
    pub proof fn lemma_untruncated(self, dp: nat)
        ensures
            self.places() <= dp ==> self.truncated(dp) == self,
            self.valid() && dp >= MAX_SCALE ==> self.truncated(dp) == self,
    {
    }

    /// Cutting a number off a second time changes nothing.
    pub proof fn law_truncated_again(self, dp: nat)
        requires
            dp <= MAX_SCALE,
        ensures
            self.truncated(dp).truncated(dp) == self.truncated(dp),
    {
    }

    /// Rounding a number moves it by at most half of one in the last decimal place that is left.
    pub proof fn law_rounded(self, dp: nat)
        requires
            self.valid(),
            dp <= MAX_SCALE,
        ensures
            self.rounded(dp).valid(),
            self.rounded(dp).places() <= dp,
            2 * (self.val() - self.rounded(dp).val()) <= Decimal::step(dp),
            2 * (self.rounded(dp).val() - self.val()) <= Decimal::step(dp),
            self.rounded(dp).rounded(dp) == self.rounded(dp),
    {
        let n = if self.num < 0 { -(self.num as int) } else { self.num as int };
        lemma_pow_positive(10, (MAX_SCALE - self.scale) as nat);
        lemma_pow_positive(10, (MAX_SCALE - dp) as nat);
        if self.scale > dp {
            let m = pow(10, (self.scale - dp) as nat);
            let u = pow(10, (MAX_SCALE - self.scale) as nat);
            lemma_pow_positive(10, (self.scale - dp) as nat);
            vstd::arithmetic::power::lemma_pow_adds(
                10,
                (self.scale - dp) as nat,
                (MAX_SCALE - self.scale) as nat,
            );
            lemma_cut(n, m, u);
            let q = n / m;
            let c = if 2 * (n % m) > m || (2 * (n % m) == m && q % 2 == 1) { q + 1 } else { q };
            assert(0 <= c <= n) by {
                assert(q <= n && (n % m > 0 ==> q < n)) by (nonlinear_arith)
                    requires
                        n == q * m + n % m,
                        0 <= n % m < m,
                        m > 0,
                        q >= 0,
                ;
            }
            assert(self.rounded(dp).val() == quotient_half_even(self.num as int, m) * (m * u));
            assert((q + 1) * (m * u) == q * (m * u) + m * u) by (nonlinear_arith);
            assert((-c) * (m * u) == -(c * (m * u))) by (nonlinear_arith);
            assert((-n) * u == -(n * u)) by (nonlinear_arith);
            assert(n * u == q * (m * u) + (n % m) * u);
            assert(2 * (n % m) <= m ==> 2 * ((n % m) * u) <= m * u) by (nonlinear_arith)
                requires
                    u > 0,
            ;
            assert(2 * (n % m) >= m ==> 2 * ((n % m) * u) >= m * u) by (nonlinear_arith)
                requires
                    u > 0,
            ;
        }
    }
}

impl PartialEq for Decimal {
    fn eq(&self, other: &Decimal) -> (r: bool) {
        !self.less(other) && !other.less(self)
    }
}

impl vstd::std_specs::cmp::PartialEqSpecImpl for Decimal {
    open spec fn obeys_eq_spec() -> bool {
        true
    }

    open spec fn eq_spec(&self, other: &Decimal) -> bool {
        self.val() == other.val()
    }
}

impl PartialOrd for Decimal {
    fn partial_cmp(&self, other: &Decimal) -> (r: Option<core::cmp::Ordering>) {
        if self.less(other) {
            Some(core::cmp::Ordering::Less)
        } else if other.less(self) {
            Some(core::cmp::Ordering::Greater)
        } else {
            Some(core::cmp::Ordering::Equal)
        }
    }
}

impl vstd::std_specs::cmp::PartialOrdSpecImpl for Decimal {
    open spec fn obeys_partial_cmp_spec() -> bool {
        true
    }

    open spec fn partial_cmp_spec(&self, other: &Decimal) -> Option<core::cmp::Ordering> {
        if self.val() < other.val() {
            Some(core::cmp::Ordering::Less)
        } else if self.val() > other.val() {
            Some(core::cmp::Ordering::Greater)
        } else {
            Some(core::cmp::Ordering::Equal)
        }
    }
}

impl From<u64> for Decimal {
    fn from(v: u64) -> (r: Decimal) {
        Decimal { num: v as i128, scale: 0, minus: false }
    }
}

impl vstd::std_specs::convert::FromSpecImpl<u64> for Decimal {
    open spec fn obeys_from_spec() -> bool {
        true
    }

    open spec fn from_spec(v: u64) -> Decimal {
        Decimal::of(v as int, 0)
    }
}

impl From<i64> for Decimal {
    fn from(v: i64) -> (r: Decimal) {
        Decimal { num: v as i128, scale: 0, minus: v < 0 }
    }
}

impl vstd::std_specs::convert::FromSpecImpl<i64> for Decimal {
    open spec fn obeys_from_spec() -> bool {
        true
    }

    open spec fn from_spec(v: i64) -> Decimal {
        Decimal::of(v as int, 0)
    }
}

/// What the engine takes as an amount: a decimal number or a whole one.
pub trait Amount: Sized {
    /// The amount as a decimal number.
    spec fn amount(self) -> Decimal;

    /// The amount as a decimal number.
    fn into_decimal(self) -> (r: Decimal)
        ensures
            r == self.amount(),
    ;
}

impl Amount for Decimal {
    open spec fn amount(self) -> Decimal {
        self
    }

    fn into_decimal(self) -> (r: Decimal) {
        self
    }
}

impl Amount for u64 {
    open spec fn amount(self) -> Decimal {
        Decimal::of(self as int, 0)
    }

    fn into_decimal(self) -> (r: Decimal) {
        Decimal { num: self as i128, scale: 0, minus: false }
    }
}

impl Amount for i64 {
    open spec fn amount(self) -> Decimal {
        Decimal::of(self as int, 0)
    }

    fn into_decimal(self) -> (r: Decimal) {
        Decimal { num: self as i128, scale: 0, minus: self < 0 }
    }
}

proof fn lemma_pow_zero()
    ensures
        pow(10, 0) == 1,
{
    reveal(pow);
}

proof fn lemma_pow_step(e: nat)
    ensures
        pow(10, e + 1) == pow(10, e) * 10,
{
    reveal(pow);
    assert(pow(10, e + 1) == 10 * pow(10, e));
}

/// Powers of ten up to the thirtieth are below ten to the power of thirty-one.
proof fn lemma_pow_bound(e: nat)
    requires
        e <= 30,
    ensures
        0 < pow(10, e) <= 1_000_000_000_000_000_000_000_000_000_000,
    decreases 30 - e,
{
    lemma_pow_positive(10, e);
    if e == 30 {
        reveal_with_fuel(pow, 31);
    } else {
        lemma_pow_bound(e + 1);
        lemma_pow_step(e);
    }
}

proof fn lemma_divide_by_one(a: int)
    by (nonlinear_arith)
    ensures
        a / 1 == a,
{
}

proof fn lemma_divide_twice(a: int, b: int, c: int)
    requires
        0 <= a,
        0 < b,
        0 < c,
    ensures
        (a / b) / c == a / (b * c),
        0 <= a / b,
{
    vstd::arithmetic::div_mod::lemma_div_denominator(a, b, c);
    vstd::arithmetic::div_mod::lemma_div_pos_is_pos(a, b);
}

/// A number in units of `u` is a multiple of `m * u` and less than that more.
proof fn lemma_cut(n: int, m: int, u: int)
    requires
        n >= 0,
        m > 0,
        u > 0,
    ensures
        0 <= n / m <= n,
        n == (n / m) * m + n % m,
        0 <= n % m < m,
        m * u > 0,
        n * u == (n / m) * (m * u) + (n % m) * u,
        0 <= (n % m) * u < m * u,
        (-(n / m)) * (m * u) == -((n / m) * (m * u)),
        (-n) * u == -(n * u),
{
    vstd::arithmetic::div_mod::lemma_fundamental_div_mod(n, m);
    vstd::arithmetic::div_mod::lemma_mod_bound(n, m);
    vstd::arithmetic::div_mod::lemma_div_pos_is_pos(n, m);
    let q = n / m;
    let r = n % m;
    assert(q <= n && q * m + r == n) by (nonlinear_arith)
        requires
            n == m * q + r,
            r >= 0,
            q >= 0,
            m > 0,
    ;
    assert(n * u == q * (m * u) + r * u && m * u > 0 && 0 <= r * u < m * u) by (nonlinear_arith)
        requires
            n == q * m + r,
            0 <= r < m,
            u > 0,
    ;
    assert((-q) * (m * u) == -(q * (m * u))) by (nonlinear_arith);
    assert((-n) * u == -(n * u)) by (nonlinear_arith);
}

proof fn lemma_product_sign(a: int, b: int)
    by (nonlinear_arith)
    requires
        b > 0,
    ensures
        (a * b == 0) == (a == 0),
        (a * b > 0) == (a > 0),
        (a * b < 0) == (a < 0),
        (-a) * b == -(a * b),
{
}

} // verus!
