use rpte::{Decimal, Oracle};
use std::collections::HashMap;

fn d(num: i64, scale: u32) -> Decimal {
    Decimal::new(num, scale)
}

const USDT: usize = 0;
const BTC: usize = 1;
const ETH: usize = 2;

fn oracle() -> Oracle {
    let mut o = Oracle::new(USDT);
    o.set_prices(vec![
        (USDT, BTC, d(1, 0)),
        (USDT, ETH, d(2000, 0)),
        (USDT, BTC, d(50000, 0)),
    ]);
    o
}

#[test]
fn the_last_price_of_a_pair_counts() {
    let o = oracle();
    assert_eq!(o.price(USDT, BTC), Some(d(50000, 0)));
    assert_eq!(o.price(BTC, USDT), None);
    assert_eq!(o.global_quote_token, USDT);
}

#[test]
fn the_price_between_two_tokens_is_that_of_their_pair() {
    let o = oracle();
    assert_eq!(o.price_between(USDT, BTC), Some((d(50000, 0), USDT, BTC)));
    assert_eq!(o.price_between(BTC, USDT), Some((d(50000, 0), USDT, BTC)));
    assert_eq!(o.price_between(BTC, ETH), None);
}

#[test]
fn amounts_are_converted_by_a_pair_or_over_the_quote_token() {
    let o = oracle();
    assert_eq!(o.convert(USDT, BTC, d(25000, 0)), Some(d(5, 1)));
    assert_eq!(o.convert(BTC, USDT, d(2, 0)), Some(d(100000, 0)));
    assert_eq!(o.convert(BTC, ETH, d(2, 0)), Some(d(50, 0)));
    assert_eq!(o.convert(BTC, BTC, d(3, 0)), Some(d(3, 0)));
    assert_eq!(o.convert(BTC, 9, d(3, 0)), Some(Decimal::zero()));
    assert_eq!(o.convert(BTC, 9, Decimal::zero()), Some(Decimal::zero()));
}

#[test]
fn a_price_of_zero_converts_nothing() {
    let mut o = Oracle::new(USDT);
    o.set_prices(vec![(USDT, BTC, Decimal::zero())]);
    assert_eq!(o.price_between(USDT, BTC), Some((Decimal::zero(), USDT, BTC)));
    assert_eq!(o.price_between(BTC, USDT), None);
    assert_eq!(o.convert(USDT, BTC, d(1, 0)), Some(Decimal::zero()));
}

#[test]
fn balances_are_those_of_the_snapshot() {
    let mut o = Oracle::new(USDT);
    assert!(o.balances_of(3).is_none());
    let mut sheet = HashMap::new();
    sheet.insert(BTC, d(7, 0));
    let mut all = HashMap::new();
    all.insert(3, sheet);
    o.set_balances(all);
    assert_eq!(o.balance(3, BTC), d(7, 0));
    assert_eq!(o.balance(3, ETH), Decimal::zero());
    assert_eq!(o.balance(4, BTC), Decimal::zero());
    assert_eq!(o.balances_of(3).unwrap().len(), 1);
}
