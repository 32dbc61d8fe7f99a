use rpte::{
    AnyNode, Decimal, Drt, EngineReader, Ledger, Msg, Node, OrderType, Pair, PairNode, Rpte,
};

fn d(num: i64, scale: u32) -> Decimal {
    Decimal::new(num, scale)
}

fn balance(engine: &Rpte, id: usize, token: usize) -> Decimal {
    engine.get_node_balance(id, token).unwrap()
}

fn setup() -> (Rpte, usize, usize, usize) {
    let mut engine = Rpte::new("USDT", 4);
    let btc = engine.register_token("BTC");
    let alice = engine.register_account();
    let bob = engine.register_account();
    engine.issue(alice, 0, 10000u64).unwrap();
    engine.issue(bob, btc, 10u64).unwrap();
    (engine, btc, alice, bob)
}

#[test]
fn issuing_raises_balances_and_supply_alike() {
    let (mut engine, btc, alice, _) = setup();
    assert_eq!(engine.get_token_total_supply(btc).unwrap(), d(10, 0));
    engine.issue(alice, btc, d(123456, 5)).unwrap();
    assert_eq!(balance(&engine, alice, btc), d(12345, 4));
    assert_eq!(engine.get_token_total_supply(btc).unwrap(), d(112345, 4));
    engine.issue(alice, btc, d(-1, 0)).unwrap();
    assert_eq!(balance(&engine, alice, btc), d(2345, 4));
    assert_eq!(engine.get_token_total_supply(btc).unwrap(), d(102345, 4));
}

#[test]
fn transfers_wait_for_the_frame_and_conserve_the_total() {
    let (mut engine, _, alice, bob) = setup();
    engine.transfer(alice, bob, 0, d(25, 1));
    assert_eq!(balance(&engine, bob, 0), Decimal::zero());
    engine.step().unwrap();
    assert_eq!(balance(&engine, alice, 0), d(99975, 1));
    assert_eq!(balance(&engine, bob, 0), d(25, 1));
}

#[test]
fn a_refused_transfer_changes_nothing() {
    let (mut engine, _, alice, bob) = setup();
    engine.transfer(bob, alice, 0, 1u64);
    engine.step().unwrap();
    assert_eq!(balance(&engine, alice, 0), d(10000, 0));
    assert_eq!(balance(&engine, bob, 0), Decimal::zero());
    engine.transfer_with_overdraft(bob, alice, 0, 1u64);
    engine.step().unwrap();
    assert_eq!(balance(&engine, bob, 0), d(-1, 0));
    assert_eq!(balance(&engine, alice, 0), d(10001, 0));
}

#[test]
fn a_token_that_may_be_negative_is_always_paid() {
    let (mut engine, btc, alice, bob) = setup();
    assert!(!engine.get_token_can_be_negative(btc));
    engine.set_token_can_be_negative(btc, true).unwrap();
    assert!(engine.get_token_can_be_negative(btc));
    assert!(engine.set_token_can_be_negative(9, true).is_err());
    engine.transfer(alice, bob, btc, 3u64);
    engine.step().unwrap();
    assert_eq!(balance(&engine, alice, btc), d(-3, 0));
    assert_eq!(balance(&engine, bob, btc), d(13, 0));
}

#[test]
fn everything_is_moved_at_once() {
    let (mut engine, btc, alice, bob) = setup();
    engine.send_msg(Msg::TransferAll { src_id: alice, dst_id: bob });
    engine.step().unwrap();
    assert_eq!(balance(&engine, alice, 0), Decimal::zero());
    assert_eq!(balance(&engine, bob, 0), d(10000, 0));
    assert_eq!(balance(&engine, bob, btc), d(10, 0));
}

#[test]
fn an_order_holds_what_its_owner_put_up() {
    let (mut engine, btc, alice, _) = setup();
    engine.make(alice, 0, btc, 100u64, 20u64);
    engine.step().unwrap();
    assert_eq!(balance(&engine, alice, 0), d(9900, 0));
    assert_eq!(engine.get_account_equity_token(alice, 0).unwrap(), d(10000, 0));
    let order = engine.get_all_orders()[0];
    assert_eq!(balance(&engine, order, 0), d(100, 0));
    assert!(engine.get_account_orders(alice).unwrap().contains(&order));
    engine.cancel_order(order);
    engine.step().unwrap();
    assert_eq!(balance(&engine, alice, 0), d(10000, 0));
    assert_eq!(balance(&engine, order, 0), Decimal::zero());
    assert!(engine.get_account_orders(alice).unwrap().is_empty());
    assert!(engine.get_order_brief(order).is_err());
    engine.make(alice, 0, btc, 50u64, 20u64);
    engine.step().unwrap();
    assert_eq!(engine.get_all_orders(), vec![order]);
}

#[test]
fn an_order_that_its_owner_cannot_pay_is_not_opened() {
    let (mut engine, btc, alice, bob) = setup();
    engine.make(bob, 0, btc, 1u64, 1u64);
    engine.make(alice, 0, btc, 10001u64, 1u64);
    engine.step().unwrap();
    assert!(engine.get_all_orders().is_empty());
    assert!(engine.get_all_pairs().is_empty());
}

#[test]
fn the_earlier_order_makes_the_price() {
    let (mut engine, btc, alice, bob) = setup();
    engine.make(alice, 0, btc, 100u64, 20u64);
    engine.step().unwrap();
    engine.make(bob, btc, 0, 5u64, 10u64);
    engine.step().unwrap();
    engine.step().unwrap();
    assert_eq!(balance(&engine, bob, 0), d(100, 0));
    assert_eq!(balance(&engine, alice, btc), d(5, 0));
    assert_eq!(engine.get_current_price(0, btc).unwrap(), (d(20, 0), 0, btc));
    assert!(engine.get_all_orders().is_empty());
}

#[test]
fn orders_of_one_frame_meet_in_the_middle() {
    let (mut engine, btc, alice, bob) = setup();
    engine.make(alice, 0, btc, 100u64, 30u64);
    engine.make(bob, btc, 0, 1u64, 10u64);
    engine.step().unwrap();
    engine.step().unwrap();
    assert_eq!(engine.get_current_price(btc, 0).unwrap(), (d(20, 0), 0, btc));
    assert_eq!(balance(&engine, bob, 0), d(20, 0));
    let order = engine.list_account_orders(alice).unwrap()[0];
    let brief = engine.get_order_brief(order).unwrap();
    assert_eq!((brief.src_volume, brief.dst_volume), (d(80, 0), d(1, 0)));
    assert_eq!(brief.direction, Drt::Buy);
}

#[test]
fn no_order_is_left_that_would_trade() {
    let (mut engine, btc, alice, bob) = setup();
    for price in [10u64, 12, 9, 15] {
        engine.make(alice, 0, btc, 100u64, price);
        engine.step().unwrap();
    }
    for price in [14u64, 11, 16, 9] {
        engine.make(bob, btc, 0, 2u64, price);
        engine.step().unwrap();
    }
    engine.step().unwrap();
    let buy = engine.get_order_book(0, btc, 0).unwrap();
    let sell = engine.get_order_book(btc, 0, 0).unwrap();
    assert!(buy.price < sell.price);
    assert_eq!(sell.price, d(16, 0));
}

#[test]
fn a_market_order_takes_the_best_prices_first() {
    let (mut engine, btc, alice, bob) = setup();
    engine.make(bob, btc, 0, 1u64, 30u64);
    engine.step().unwrap();
    engine.make(bob, btc, 0, 2u64, 10u64);
    engine.step().unwrap();
    engine.swap(alice, 0, btc, 35u64);
    engine.step().unwrap();
    assert_eq!(balance(&engine, alice, btc), d(25, 1));
    assert_eq!(balance(&engine, alice, 0), d(9965, 0));
    let logs = engine.get_tra_logs(0, btc).unwrap();
    assert_eq!((logs[0].price, logs[0].volume), (d(10, 0), d(2, 0)));
    assert_eq!((logs[1].price, logs[1].volume), (d(30, 0), d(5, 1)));
    assert_eq!((logs[0].buy_node, logs[1].buy_node), (alice, alice));
}

#[test]
fn a_market_order_is_cut_down_to_what_its_owner_has() {
    let (mut engine, btc, alice, bob) = setup();
    engine.make(alice, 0, btc, 1000u64, 10u64);
    engine.step().unwrap();
    engine.swap(bob, btc, 0, 500u64);
    engine.step().unwrap();
    assert_eq!(balance(&engine, bob, btc), Decimal::zero());
    assert_eq!(balance(&engine, bob, 0), d(100, 0));
}

#[test]
fn market_orders_of_one_frame_share_what_there_is() {
    let (mut engine, btc, alice, bob) = setup();
    let carol = engine.register_account();
    engine.issue(carol, 0, 1000u64).unwrap();
    engine.make(bob, btc, 0, 4u64, 10u64);
    engine.step().unwrap();
    engine.swap(alice, 0, btc, 30u64);
    engine.swap(carol, 0, btc, 90u64);
    engine.step().unwrap();
    assert_eq!(balance(&engine, alice, btc), d(1, 0));
    assert_eq!(balance(&engine, carol, btc), d(3, 0));
    assert_eq!(balance(&engine, alice, 0), d(9990, 0));
    assert_eq!(balance(&engine, carol, 0), d(970, 0));
    engine.step().unwrap();
    assert_eq!(balance(&engine, bob, 0), d(40, 0));
}

#[test]
fn the_last_unit_goes_to_the_largest_remainder() {
    let mut pair = Pair::new(0, 1, Decimal::one(), 10, 0);
    let brief = rpte::OrderBrief {
        id: 9,
        direction: Drt::Sell,
        src_token: 1,
        dst_token: 0,
        src_volume: d(10, 0),
        dst_volume: Decimal::zero(),
        price: Decimal::one(),
        step_count_created: 0,
    };
    pair.insert_brief(brief, 0).unwrap();
    let swaps = vec![(1, d(5, 0)), (2, d(6, 0)), (3, d(4, 0))];
    let (transfers, closes) = pair.process_swaps_batch(Drt::Buy, &swaps, 0).unwrap();
    let paid: Vec<(usize, Decimal)> = transfers
        .iter()
        .filter(|t| t.dst_id == 9)
        .map(|t| (t.src_id, t.volume))
        .collect();
    assert_eq!(paid, vec![(1, d(3, 0)), (2, d(4, 0)), (3, d(3, 0))]);
    assert_eq!(closes, vec![9]);
}

#[test]
fn several_pairs_of_tokens_keep_apart() {
    let (mut engine, btc, ..) = setup();
    let eth = engine.register_token("ETH");
    let (_, quote, base) = engine.get_current_price(eth, btc).unwrap();
    assert_eq!((quote, base), (btc, eth));
    let (_, quote, base) = engine.get_current_price(eth, 0).unwrap();
    assert_eq!((quote, base), (0, eth));
    assert_eq!(engine.get_all_pairs().len(), 2);
    engine.get_current_price(0, eth).unwrap();
    assert_eq!(engine.get_all_pairs().len(), 2);
    let info = engine.get_all_pairs_info();
    assert_eq!((info[0].1, info[0].2, info[0].3), (btc, eth, Decimal::one()));
    assert_eq!(engine.get_pair_quote_token(info[1].0).unwrap(), 0);
    assert_eq!(engine.get_pair_base_token(info[1].0).unwrap(), eth);
}

#[test]
fn tokens_may_be_kept_from_trading() {
    let (mut engine, btc, alice, bob) = setup();
    engine.send_msg(Msg::RegisterToken {
        name: "BTC".to_string(),
        can_be_negative: false,
        not_tradable: true,
        virtual_anchor: None,
        swap_whitelist: vec![],
    });
    engine.send_msg(Msg::RegisterToken {
        name: "ETH".to_string(),
        can_be_negative: true,
        not_tradable: false,
        virtual_anchor: None,
        swap_whitelist: vec![0],
    });
    engine.step().unwrap();
    let eth = engine.get_token_by_name("ETH").unwrap();
    assert!(engine.get_token_can_be_negative(eth));
    assert!(!engine.is_swap_allowed(0, btc));
    assert!(engine.is_swap_allowed(0, eth));
    assert!(engine.is_swap_allowed(eth, 0));
    assert!(!engine.is_swap_allowed(eth, btc));
    assert!(!engine.is_swap_allowed(0, 0));
    engine.make(alice, 0, btc, 1u64, 1u64);
    engine.swap(bob, btc, 0, 1u64);
    engine.step().unwrap();
    assert!(engine.get_all_pairs().is_empty());
}

#[test]
fn frames_are_counted() {
    let (mut engine, ..) = setup();
    assert_eq!(engine.reader().get_step_count(), 0);
    engine.step().unwrap();
    engine.update().unwrap();
    assert_eq!(engine.reader().get_step_count(), 2);
    assert!(engine.is_running());
    engine.stop();
    assert!(!engine.is_running());
}

#[test]
fn candles_sum_up_the_trades_of_an_interval() {
    let (mut engine, btc, alice, bob) = setup();
    for price in [20u64, 50, 10, 30] {
        engine.make(bob, btc, 0, 1u64, price);
        engine.step().unwrap();
        engine.swap(alice, 0, btc, price);
        engine.step().unwrap();
    }
    let candles = engine.get_candle_data(0, btc, 4).unwrap();
    assert_eq!(candles.len(), 2);
    let c = candles[0];
    assert_eq!((c.step_count, c.open, c.high), (0, d(20, 0), d(50, 0)));
    assert_eq!((c.low, c.close, c.volume), (d(20, 0), d(50, 0), d(2, 0)));
    let c = candles[1];
    assert_eq!((c.step_count, c.open, c.high), (4, d(10, 0), d(30, 0)));
    assert_eq!((c.low, c.close, c.volume), (d(10, 0), d(30, 0), d(2, 0)));
    let latest = engine.latest_candle(0, btc, 4).unwrap().unwrap();
    assert_eq!((latest.step_count, latest.close, latest.volume), (4, d(30, 0), d(2, 0)));
    assert!(engine.get_candle_data(0, btc, 0).unwrap().is_empty());
    assert!(engine.latest_candle(0, btc, 0).unwrap().is_none());
}

#[test]
fn a_log_keeps_the_last_trades() {
    let mut pair = Pair::new(0, 1, Decimal::one(), 2, 4);
    for price in [1i64, 2, 3] {
        pair.push_tra_log(6, 7, 8, d(price, 0), Decimal::one());
    }
    let logs = pair.get_tra_logs();
    assert_eq!(logs.len(), 2);
    assert_eq!((logs[0].price, logs[1].price), (d(2, 0), d(3, 0)));
}

#[test]
fn worth_is_what_is_owned_less_what_is_owed() {
    let (mut engine, btc, alice, bob) = setup();
    engine.make(bob, btc, 0, 1u64, 50u64);
    engine.step().unwrap();
    engine.swap(alice, 0, btc, 50u64);
    engine.step().unwrap();
    engine.step().unwrap();
    engine.transfer_with_overdraft(alice, bob, btc, 3u64);
    engine.step().unwrap();
    assert_eq!(balance(&engine, alice, btc), d(-2, 0));
    assert_eq!(engine.get_account_assets(alice, None).unwrap(), d(9950, 0));
    assert_eq!(engine.get_account_liabilities(alice, None).unwrap(), d(100, 0));
    assert_eq!(engine.account_equity_value(alice, None).unwrap(), d(9850, 0));
    assert_eq!(engine.account_equity_value(alice, Some(btc)).unwrap(), d(197, 0));
    let equity = engine.get_account_equity(alice).unwrap();
    assert_eq!(equity[&0], d(9950, 0));
    assert_eq!(equity[&btc], d(-2, 0));
}

#[test]
fn values_are_converted_over_the_quote_token() {
    let (mut engine, btc, ..) = setup();
    let eth = engine.register_token("ETH");
    engine.register_pair(AnyNode::Pair(Pair::new(0, btc, d(300, 0), 10, 4)));
    engine.register_pair(AnyNode::Pair(Pair::new(0, eth, d(7, 0), 10, 4)));
    assert_eq!(engine.convert_value(btc, 0, d(2, 0)), Some(d(600, 0)));
    assert_eq!(engine.convert_value(0, btc, d(100, 0)), Some(d(3333, 4)));
    assert_eq!(engine.convert_value(btc, eth, d(2, 0)), Some(d(857142, 4)));
    assert_eq!(engine.convert_value(btc, 99, d(2, 0)), Some(Decimal::zero()));
    assert_eq!(engine.convert_value(btc, btc, d(2, 0)), Some(d(2, 0)));
    let reader: &Ledger = engine.reader();
    assert_eq!(EngineReader::get_current_price(reader, 0, btc), Some(Some(d(300, 0))));
    assert_eq!(EngineReader::get_current_price(reader, eth, 0).unwrap().unwrap().fixed(6), "0.142857");
    assert_eq!(EngineReader::get_current_price(reader, btc, eth), Some(None));
    let value = EngineReader::convert_value(reader, btc, 0, d(2, 0)).unwrap();
    assert_eq!(value.fixed(4), "600.0000");
}

#[test]
fn values_are_cut_off_at_the_precision() {
    let engine = Rpte::new("USDT", 2);
    assert_eq!(engine.round(d(12999, 4)), d(129, 2));
    assert_eq!(engine.round(d(-12999, 4)), d(-129, 2));
    assert_eq!(engine.round(d(5, 0)), d(5, 0));
}

#[test]
fn nodes_are_added_under_their_ids() {
    let (mut engine, ..) = setup();
    let id = engine.register_node(AnyNode::Account(rpte::Account::new()));
    assert_eq!(engine.reader().node(id).get_id(), id);
    assert_eq!(engine.get_all_accounts().len(), 2);
    assert!(OrderType::default() == OrderType::Make);
}

/// What all nodes hold together of a token.
fn held(engine: &Rpte, nodes: usize, token: usize) -> Decimal {
    let mut total = Decimal::zero();
    for id in 0..nodes {
        if let Ok(v) = engine.get_node_balance(id, token) {
            total = Decimal::new(whole(total) + whole(v), 4);
        }
    }
    total
}

/// A number of up to four decimal places, in units of the fourth.
fn whole(v: Decimal) -> i64 {
    v.fixed(4).replace('.', "").parse().unwrap()
}

#[test]
fn a_frame_makes_and_loses_nothing_and_overdraws_nobody() {
    let mut engine = Rpte::new("USDT", 4);
    let btc = engine.register_token("BTC");
    let alice = engine.register_account();
    let bob = engine.register_account();
    let carol = engine.register_account();
    engine.issue(alice, 0, 1000u64).unwrap();
    engine.issue(bob, btc, 10u64).unwrap();
    engine.issue(carol, 0, 500u64).unwrap();
    engine.make(bob, btc, 0, 2u64, 100u64);
    engine.make(bob, btc, 0, 3u64, 100u64);
    engine.make(alice, 0, btc, 250u64, 110u64);
    engine.swap(carol, 0, btc, 900u64);
    engine.transfer(alice, bob, 0, 5000u64);
    engine.transfer(alice, carol, 0, 7u64);
    for _ in 0..4 {
        engine.step().unwrap();
        assert_eq!(held(&engine, 20, 0), Decimal::new(1500, 0));
        assert_eq!(held(&engine, 20, btc), Decimal::new(10, 0));
        assert_eq!(engine.get_token_total_supply(0).unwrap(), Decimal::new(1500, 0));
        for id in 0..20 {
            for token in [0, btc] {
                if let Ok(v) = engine.get_node_balance(id, token) {
                    assert!(v >= Decimal::zero());
                }
            }
        }
    }
}

#[test]
fn orders_of_one_price_and_frame_both_trade() {
    let mut engine = Rpte::new("USDT", 4);
    let btc = engine.register_token("BTC");
    let alice = engine.register_account();
    let bob = engine.register_account();
    let carol = engine.register_account();
    engine.issue(alice, btc, 1u64).unwrap();
    engine.issue(bob, btc, 1u64).unwrap();
    engine.issue(carol, 0, 200u64).unwrap();
    engine.make(alice, btc, 0, 1u64, 100u64);
    engine.make(bob, btc, 0, 1u64, 100u64);
    engine.step().unwrap();
    engine.swap(carol, 0, btc, 200u64);
    engine.step().unwrap();
    engine.step().unwrap();
    assert_eq!(engine.get_node_balance(alice, 0).unwrap(), Decimal::new(100, 0));
    assert_eq!(engine.get_node_balance(bob, 0).unwrap(), Decimal::new(100, 0));
    assert_eq!(engine.get_node_balance(carol, btc).unwrap(), Decimal::new(2, 0));
}

#[test]
fn market_orders_spend_no_more_than_they_have() {
    let mut engine = Rpte::new("USDT", 4);
    let btc = engine.register_token("BTC");
    let alice = engine.register_account();
    let bob = engine.register_account();
    let carol = engine.register_account();
    engine.issue(alice, btc, 1u64).unwrap();
    engine.issue(bob, 0, 100u64).unwrap();
    engine.issue(carol, 0, 200u64).unwrap();
    engine.make(alice, btc, 0, 1u64, 150u64);
    engine.step().unwrap();
    engine.swap(bob, 0, btc, 100u64);
    engine.swap(carol, 0, btc, 200u64);
    engine.step().unwrap();
    engine.step().unwrap();
    assert_eq!(engine.get_node_balance(bob, 0).unwrap(), Decimal::new(50, 0));
    assert_eq!(engine.get_node_balance(carol, 0).unwrap(), Decimal::new(100, 0));
    let bought = whole(engine.get_node_balance(bob, btc).unwrap())
        + whole(engine.get_node_balance(carol, btc).unwrap());
    assert!(bought <= 10000 && bought >= 9999);
}

#[test]
fn the_minus_sign_of_a_zero_stays_in_a_sum_of_zeros() {
    let mut engine = Rpte::new("USDT", 4);
    let alice = engine.register_account();
    engine.issue(alice, 0, d(0, 6).neg()).unwrap();
    assert_eq!(balance(&engine, alice, 0).text(), "-0.0000");
    engine.issue(alice, 0, d(-1, 6)).unwrap();
    assert_eq!(balance(&engine, alice, 0).text(), "0.0000");
    engine.issue(alice, 0, 2u64).unwrap();
    engine.issue(alice, 0, d(0, 0).neg()).unwrap();
    assert_eq!(balance(&engine, alice, 0).text(), "2");
}

#[test]
fn a_difference_that_is_rounded_leaves_nobody_below_zero() {
    let mut engine = Rpte::new("USDT", 12);
    let alice = engine.register_account();
    let bob = engine.register_account();
    engine.issue(alice, 0, u64::MAX).unwrap();
    engine.transfer(alice, bob, 0, d(1, 10));
    engine.step().unwrap();
    assert_eq!(balance(&engine, alice, 0), Decimal::from(u64::MAX));
    assert_eq!(balance(&engine, bob, 0), d(1, 10));
}

#[test]
fn a_payment_beyond_what_is_there_conserves_the_total() {
    let (mut engine, btc, alice, bob) = setup();
    engine.transfer_with_overdraft(alice, bob, btc, d(35, 1));
    engine.step().unwrap();
    assert_eq!(balance(&engine, alice, btc), d(-35, 1));
    assert_eq!(balance(&engine, bob, btc), d(135, 1));
    assert_eq!(engine.get_token_total_supply(btc).unwrap(), d(10, 0));
}

#[test]
fn tokens_are_found_by_their_names_and_names_by_their_tokens() {
    let (mut engine, btc, _, _) = setup();
    let eth = engine.register_token("ETH");
    assert_eq!(engine.register_token("BTC"), btc);
    for id in engine.get_all_tokens() {
        let name = engine.get_token_name(id).unwrap().to_string();
        assert_eq!(engine.get_token_by_name(&name), Some(id));
    }
    assert_eq!(engine.get_token_by_name("ETH"), Some(eth));
    assert_eq!(engine.get_token_by_name("XRP"), None);
}
