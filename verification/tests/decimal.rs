use rpte::Decimal;

fn d(num: i64, scale: u32) -> Decimal {
    Decimal::new(num, scale)
}

#[test]
fn decimals_compare_by_value() {
    assert_eq!(d(10, 1), d(1, 0));
    assert_eq!(d(-250, 2), d(-25, 1));
    assert!(d(1, 1) < d(11, 2));
    assert!(d(-1, 0) < d(1, 28));
    assert!(d(5, 0) > d(49, 1));
    assert!(d(0, 5) == Decimal::zero());
}

#[test]
fn decimals_have_signs_and_bounds() {
    assert_eq!(d(-7, 1).abs(), d(7, 1));
    assert_eq!(d(7, 1).abs(), d(7, 1));
    assert_eq!(d(7, 1).neg(), d(-7, 1));
    assert_eq!(d(3, 0).min(d(25, 1)), d(25, 1));
    assert_eq!(d(3, 0).max(d(25, 1)), d(3, 0));
    assert!(d(0, 3).is_zero());
    assert!(!d(1, 28).is_zero());
    assert_eq!(Decimal::one(), d(100, 2));
}

#[test]
fn decimals_have_a_whole_part() {
    assert_eq!(d(1299, 2).to_u64(), Some(12));
    assert_eq!(d(99, 2).to_u64(), Some(0));
    assert_eq!(d(-1, 0).to_u64(), None);
    assert_eq!(d(i64::MAX, 0).to_u64(), Some(i64::MAX as u64));
}

#[test]
fn decimals_have_units() {
    assert_eq!(Decimal::unit(4), Some(d(1, 4)));
    assert_eq!(Decimal::unit(28), Some(d(1, 28)));
    assert!(Decimal::unit(29).is_none());
}

#[test]
fn decimals_come_from_integers() {
    assert_eq!(Decimal::from(12u64), d(12, 0));
    assert_eq!(Decimal::from(-12i64), d(-12, 0));
    assert_eq!(Decimal::from(u64::MAX).text(), "18446744073709551615");
}

#[test]
fn decimals_are_written_with_their_scale() {
    assert_eq!(d(1050, 2).text(), "10.50");
    assert_eq!(d(-5, 3).text(), "-0.005");
    assert_eq!(Decimal::zero().text(), "0");
}

#[test]
fn decimals_are_written_with_fixed_places() {
    assert!(d(105, 1).fits_fixed(4));
    assert_eq!(d(105, 1).fixed(4), "10.5000");
    assert_eq!(d(19999, 4).fixed(2), "1.99");
    assert_eq!(d(-19999, 4).fixed(0), "-1");
    assert_eq!(d(5, 3).fixed(2), "0.00");
    assert_eq!(d(5, 3).fixed(30), "0.005000000000000000000000000000");
}

#[test]
fn a_number_too_long_for_fixed_places_is_told() {
    assert!(d(i64::MAX, 0).fits_fixed(12));
    assert_eq!(d(i64::MAX, 0).fixed(12), "9223372036854775807.000000000000");
    assert!(!d(i64::MAX, 0).fits_fixed(13));
    assert!(!d(i64::MAX, 0).fits_fixed(255));
    assert!(d(999, 0).fits_fixed(28));
    assert!(!d(1000, 0).fits_fixed(28));
}

#[test]
fn a_zero_may_carry_a_minus_sign() {
    let minus = d(0, 2).neg();
    assert_eq!(minus.text(), "-0.00");
    assert_eq!(minus.fixed(1), "-0.0");
    assert_eq!(minus, Decimal::zero());
    assert!(!(minus < Decimal::zero()));
    assert!(minus.is_zero());
    assert_eq!(minus.neg().text(), "0.00");
    assert_eq!(minus.abs().text(), "0.00");
    assert_eq!(minus.to_u64(), None);
    assert_eq!(d(0, 2).to_u64(), Some(0));
}
