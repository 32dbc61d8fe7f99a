use rpte::{empty_fee, taker_maker_fee, Decimal, Fee, FeeCtx, FeeFn, Msg, Rpte, TakerMakerFee};

fn d(num: i64, scale: u32) -> Decimal {
    Decimal::new(num, scale)
}

fn ctx() -> FeeCtx {
    FeeCtx {
        base_token: 1,
        quote_token: 0,
        buyer_node: 5,
        seller_node: 6,
        taker_node: 5,
        maker_node: 6,
        base_volume: d(2, 0),
        quote_volume: d(100, 0),
    }
}

fn parts(fee: &Fee) -> (usize, usize, usize, Decimal) {
    (fee.src_id, fee.dst_id, fee.token, fee.volume)
}

#[test]
fn the_empty_fee_charges_nothing() {
    assert!(empty_fee().charge(4, ctx()).unwrap().is_empty());
}

#[test]
fn taker_and_maker_pay_a_rate_of_what_they_received() {
    let fee = taker_maker_fee(d(3, 4), d(1, 4), 9);
    let fees = fee.charge(4, ctx()).unwrap();
    assert_eq!(fees.len(), 2);
    assert_eq!(parts(&fees[0]), (5, 9, 1, d(6, 4)));
    assert_eq!(parts(&fees[1]), (6, 9, 0, d(1, 2)));
}

#[test]
fn fees_that_come_to_nothing_are_not_charged() {
    let fee = taker_maker_fee(d(3, 5), Decimal::zero(), 9);
    assert!(fee.charge(4, ctx()).unwrap().is_empty());
    let fee = taker_maker_fee(d(-3, 1), d(2, 1), 9);
    let fees = fee.charge(4, ctx()).unwrap();
    assert_eq!(fees.len(), 1);
    assert_eq!(parts(&fees[0]), (6, 9, 0, d(20, 0)));
}

#[test]
fn a_fee_that_overflows_is_told() {
    let fee = taker_maker_fee(d(i64::MAX, 0), Decimal::zero(), 9);
    let big = FeeCtx { base_volume: d(i64::MAX, 0), ..ctx() };
    assert!(fee.charge(4, big).is_none());
}

#[test]
fn a_pair_charges_its_fee() {
    let mut engine = Rpte::new("USDT", 4);
    let btc = engine.register_token("BTC");
    let alice = engine.register_account();
    let bob = engine.register_account();
    let house = engine.register_account();
    engine.issue(alice, 0, 1000u64).unwrap();
    engine.issue(bob, btc, 10u64).unwrap();
    engine.make(bob, btc, 0, 2u64, 100u64);
    engine.step().unwrap();
    let pair = engine.get_all_pairs()[0];
    engine.set_pair_fee(pair, Some(taker_maker_fee(d(1, 2), d(2, 2), house))).unwrap();
    engine.swap(alice, 0, btc, 100u64);
    engine.step().unwrap();
    engine.step().unwrap();
    assert_eq!(engine.get_node_balance(alice, btc).unwrap(), d(99, 2));
    assert_eq!(engine.get_node_balance(house, btc).unwrap(), d(1, 2));
    assert_eq!(engine.get_node_balance(house, 0).unwrap(), d(2, 0));
}

#[test]
fn a_fee_is_set_and_taken_away_by_messages() {
    let mut engine = Rpte::new("USDT", 4);
    let btc = engine.register_token("BTC");
    let alice = engine.register_account();
    let bob = engine.register_account();
    let house = engine.register_account();
    engine.issue(alice, 0, 1000u64).unwrap();
    engine.issue(bob, btc, 10u64).unwrap();
    engine.make(bob, btc, 0, 2u64, 100u64);
    engine.step().unwrap();
    let pair = engine.get_all_pairs()[0];
    let rates = TakerMakerFee { taker_rate: d(1, 2), maker_rate: d(3, 2), fee_collector: house };
    let fee = FeeFn { logic: Box::new(rates) };
    engine.send_msg(Msg::SetPairFee { pair_id: pair, fee_fn: Some(fee) });
    engine.step().unwrap();
    engine.swap(alice, 0, btc, 100u64);
    engine.step().unwrap();
    engine.step().unwrap();
    assert_eq!(engine.get_node_balance(alice, btc).unwrap(), d(99, 2));
    assert_eq!(engine.get_node_balance(alice, 0).unwrap(), d(900, 0));
    assert_eq!(engine.get_node_balance(house, btc).unwrap(), d(1, 2));
    assert_eq!(engine.get_node_balance(house, 0).unwrap(), d(3, 0));
    engine.send_msg(Msg::SetPairFee { pair_id: pair, fee_fn: None });
    engine.step().unwrap();
    engine.swap(alice, 0, btc, 100u64);
    engine.step().unwrap();
    engine.step().unwrap();
    assert_eq!(engine.get_node_balance(house, btc).unwrap(), d(1, 2));
    assert_eq!(engine.get_node_balance(house, 0).unwrap(), d(3, 0));
}
