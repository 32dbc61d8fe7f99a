use rpte::{
    AnyNode, Contract, ContractNode, ContractState, Decimal, Drt, LendingPreset, Msg, Node, Pair,
    OrderBrief, PairNode, Rpte, VirtualPair,
};

fn d(num: i64, scale: u32) -> Decimal {
    Decimal::new(num, scale)
}

fn preset(usdt: usize, btc: usize) -> LendingPreset {
    LendingPreset::new_bidirectional(
        usdt,
        btc,
        "aUSDT",
        "aBTC",
        "dUSDT",
        "dBTC",
        d(130, 2),
        d(110, 2),
    )
}

#[test]
fn the_rate_rises_in_two_lines() {
    let p = preset(0, 1);
    assert_eq!(p.calc_rate(Decimal::zero()), Some(d(28, 8)));
    assert_eq!(p.calc_rate(d(4, 1)), Some(d(42, 8)));
    assert_eq!(p.calc_rate(d(8, 1)), Some(d(56, 8)));
    assert_eq!(p.calc_rate(d(9, 1)), Some(d(131, 8)));
    assert_eq!(p.calc_rate(Decimal::one()), Some(d(206, 8)));
}

#[test]
fn a_contract_lives_and_ends() {
    let mut c = Contract::new();
    assert_eq!(c.get_state(), ContractState::Destroyed);
    c.end();
    assert_eq!(c.get_state(), ContractState::Destroyed);
    c.deploy(4, "loans", None, 7);
    assert_eq!(c.get_state(), ContractState::Creating);
    assert_eq!((c.get_owner_node_id(), c.get_name(), c.get_step_count_created()), (4, "loans", 7));
    let engine = Rpte::new("USDT", 4);
    c.update_with_reader::<LendingPreset>(None, engine.reader(), 8).unwrap();
    assert_eq!(c.get_state(), ContractState::Running);
    c.update_with_reader::<LendingPreset>(None, engine.reader(), 9).unwrap();
    assert_eq!(c.get_state(), ContractState::Running);
    c.end();
    assert_eq!(c.get_state(), ContractState::Ending);
    c.update_with_reader::<LendingPreset>(None, engine.reader(), 10).unwrap();
    assert_eq!(c.get_state(), ContractState::Destroyed);
    c.set_name("old loans");
    assert_eq!(c.get_name(), "old loans");
}

/// An engine with a lending contract, a price of BTC and two accounts.
fn setup() -> (Rpte, usize, usize, usize, usize) {
    let mut engine = Rpte::new("USDT", 4);
    let btc = engine.register_token("BTC");
    let alice = engine.register_account();
    let bob = engine.register_account();
    engine.issue(alice, 0, 5000u64).unwrap();
    engine.issue(bob, btc, 10u64).unwrap();
    engine.register_pair(AnyNode::Pair(Pair::new(0, btc, d(1000, 0), 10, 4)));
    engine.deploy(alice, "lending", preset(0, btc).build());
    for _ in 0..4 {
        engine.step().unwrap();
    }
    (engine, btc, alice, bob, 0)
}

fn run(engine: &mut Rpte) {
    engine.step().unwrap();
    engine.step().unwrap();
}

fn balance(engine: &Rpte, id: usize, name: &str) -> Decimal {
    let token = engine.get_token_by_name(name).unwrap();
    engine.get_node_balance(id, token).unwrap()
}

#[test]
fn a_lending_contract_registers_its_tokens_and_pairs() {
    let (engine, ..) = setup();
    for name in ["aUSDT", "aBTC", "dUSDT", "dBTC"] {
        assert!(engine.get_token_by_name(name).is_some());
    }
    let debt = engine.get_token_by_name("dUSDT").unwrap();
    assert!(engine.get_token_can_be_negative(debt));
    let receipt = engine.get_token_by_name("aUSDT").unwrap();
    assert!(!engine.get_token_can_be_negative(receipt));
    assert_eq!(engine.get_all_pairs().len(), 5);
}

#[test]
fn deposits_are_given_back_for_receipts() {
    let (mut engine, _, alice, _, usdt) = setup();
    let receipt = engine.get_token_by_name("aUSDT").unwrap();
    engine.swap(alice, usdt, receipt, 1000u64);
    run(&mut engine);
    assert_eq!(balance(&engine, alice, "USDT"), d(4000, 0));
    assert_eq!(balance(&engine, alice, "aUSDT"), d(1000, 0));
    engine.swap(alice, receipt, usdt, 400u64);
    run(&mut engine);
    assert_eq!(balance(&engine, alice, "USDT"), d(4400, 0));
    assert_eq!(balance(&engine, alice, "aUSDT"), d(600, 0));
}

#[test]
fn loans_need_collateral() {
    let (mut engine, btc, alice, bob, usdt) = setup();
    let a_usdt = engine.get_token_by_name("aUSDT").unwrap();
    let a_btc = engine.get_token_by_name("aBTC").unwrap();
    let d_usdt = engine.get_token_by_name("dUSDT").unwrap();
    engine.swap(alice, usdt, a_usdt, 5000u64);
    run(&mut engine);
    engine.swap(bob, d_usdt, usdt, 100u64);
    run(&mut engine);
    assert_eq!(balance(&engine, bob, "USDT"), Decimal::zero());
    engine.swap(bob, btc, a_btc, 2u64);
    run(&mut engine);
    assert_eq!(balance(&engine, bob, "aBTC"), d(2, 0));
    engine.swap(bob, d_usdt, usdt, 1600u64);
    run(&mut engine);
    assert_eq!(balance(&engine, bob, "USDT"), Decimal::zero());
    engine.swap(bob, d_usdt, usdt, 1500u64);
    run(&mut engine);
    assert_eq!(balance(&engine, bob, "USDT"), d(1500, 0));
    let owed = balance(&engine, bob, "dUSDT");
    assert!(owed <= d(-1500, 0) && owed > d(-1501, 0));
    engine.step().unwrap();
    let later = balance(&engine, bob, "dUSDT");
    assert!(later < owed);
    engine.swap(bob, usdt, d_usdt, 1000u64);
    run(&mut engine);
    assert_eq!(balance(&engine, bob, "USDT"), d(500, 0));
    let rest = balance(&engine, bob, "dUSDT");
    assert!(rest <= d(-500, 0) && rest > d(-501, 0));
    engine.swap(bob, a_btc, btc, 2u64);
    run(&mut engine);
    assert_eq!(balance(&engine, bob, "aBTC"), d(2, 0));
}

#[test]
fn a_loan_that_is_not_covered_is_called_in() {
    let (mut engine, btc, alice, bob, usdt) = setup();
    let a_usdt = engine.get_token_by_name("aUSDT").unwrap();
    let a_btc = engine.get_token_by_name("aBTC").unwrap();
    let d_usdt = engine.get_token_by_name("dUSDT").unwrap();
    engine.swap(alice, usdt, a_usdt, 4000u64);
    engine.swap(bob, btc, a_btc, 2u64);
    run(&mut engine);
    engine.swap(bob, d_usdt, usdt, 1500u64);
    run(&mut engine);
    assert!(balance(&engine, bob, "dUSDT") < Decimal::zero());
    engine.make(alice, usdt, btc, 500u64, 500u64);
    engine.step().unwrap();
    engine.swap(bob, btc, usdt, 1u64);
    run(&mut engine);
    run(&mut engine);
    assert_eq!(engine.get_current_price(usdt, btc).unwrap().0, d(500, 0));
    // what is left is the interest of the frame in which the loan was called in
    let left = balance(&engine, bob, "dUSDT");
    assert!(left < Decimal::zero() && left > d(-1, 2));
    assert_eq!(balance(&engine, bob, "aBTC"), Decimal::zero());
}

#[test]
fn a_virtual_pair_calls_its_contract() {
    let mut pair = VirtualPair::new(8, 3, 0, 1, 10, 2, false);
    pair.set_cached_price(d(15, 1));
    assert_eq!((pair.get_contract_slave_id(), pair.get_fn_id()), (8, 3));
    assert_eq!(pair.get_current_price(), d(15, 1));
    pair.process_swap(5, Drt::Buy, d(100, 0), 4).unwrap();
    pair.process_swap(5, Drt::Sell, d(1005, 3), 4).unwrap();
    let msgs = pair.upload_msgs(1);
    assert_eq!(msgs.len(), 2);
    let volumes: Vec<Decimal> = msgs
        .iter()
        .map(|m| match m {
            Msg::CallContract { src_id: 5, contract_id: 8, fn_id: 3, volume } => *volume,
            _ => panic!("not a call"),
        })
        .collect();
    assert_eq!(volumes, vec![d(100, 0), d(-151, 2)]);
    assert_eq!(pair.get_tra_logs().len(), 2);
}

#[test]
fn rounding_takes_a_tie_to_the_even_digit() {
    for (volume, rounded) in [(d(1, 1), d(-12, 2)), (d(3, 1), d(-38, 2)), (d(-1, 1), d(12, 2))] {
        let mut pair = VirtualPair::new(8, 3, 0, 1, 10, 2, false);
        pair.set_cached_price(d(125, 2));
        pair.process_swap(5, Drt::Sell, volume, 4).unwrap();
        match &pair.upload_msgs(1)[0] {
            Msg::CallContract { volume, .. } => assert_eq!(*volume, rounded),
            _ => panic!("not a call"),
        }
    }
}

fn limit_buy(id: usize, price: Decimal, volume: Decimal) -> OrderBrief {
    OrderBrief {
        id,
        direction: Drt::Buy,
        src_token: 0,
        dst_token: 1,
        src_volume: volume,
        dst_volume: Decimal::zero(),
        price,
        step_count_created: 1,
    }
}

#[test]
fn a_sell_is_logged_with_the_contract_as_buyer() {
    let mut pair = VirtualPair::new(8, 3, 0, 1, 10, 2, false);
    pair.set_cached_price(d(2, 0));
    pair.process_swap(5, Drt::Buy, d(4, 0), 4).unwrap();
    pair.process_swap(5, Drt::Sell, d(1, 0), 4).unwrap();
    let logs = pair.get_tra_logs();
    assert_eq!((logs[0].buy_node, logs[0].sell_node), (5, 8));
    assert_eq!((logs[1].buy_node, logs[1].sell_node), (8, 5));
}

#[test]
fn every_limit_order_offered_to_the_contract_leaves_the_book() {
    let mut pair = VirtualPair::new(8, 3, 0, 1, 10, 2, false);
    pair.set_cached_price(d(2, 0));
    pair.insert_brief(limit_buy(5, d(1, 0), d(4, 0)), 4).unwrap();
    assert!(pair.upload_msgs(1).is_empty());
    assert!(pair.get_order_book(Drt::Buy, 0).unwrap().volume.is_zero());
    pair.insert_brief(limit_buy(6, d(3, 0), d(4, 0)), 4).unwrap();
    let msgs = pair.upload_msgs(1);
    assert_eq!(msgs.len(), 2);
    assert!(matches!(msgs[0], Msg::CallContract { src_id: 6, .. }));
    assert!(matches!(msgs[1], Msg::CloseOrder { order_id: 6 }));
    pair.set_cached_price(d(1, 0));
    pair.match_orders(4).unwrap();
    assert!(pair.upload_msgs(1).is_empty());
}

#[test]
fn a_lending_contract_starts_with_its_default_rates() {
    let p = preset(0, 1);
    assert_eq!(p.optimal_utilization, d(8, 1));
    assert_eq!((p.base_rate, p.slope1, p.slope2), (d(28, 8), d(28, 8), d(15, 7)));
}
