use rpte::{Decimal, Rpte};

// ============================
// Engines, tokens and accounts
// ============================

#[test]
fn test_engine_new() {
    let engine = Rpte::new("USDT", 4);
    assert_eq!(engine.get_precision(), 4);
    assert_eq!(engine.get_global_quote_token(), 0);
    let usdt = engine.get_token_by_name("USDT").unwrap();
    assert_eq!(usdt, 0);
}

#[test]
fn test_register_token() {
    let mut engine = Rpte::new("USDT", 4);
    let btc = engine.register_token("BTC");
    assert!(btc > 0);
    assert_eq!(engine.get_token_by_name("BTC"), Some(btc));
    assert_eq!(engine.get_token_name(btc), Some("BTC"));
}

#[test]
fn test_register_duplicate_token() {
    let mut engine = Rpte::new("USDT", 4);
    let id1 = engine.register_token("BTC");
    let id2 = engine.register_token("BTC");
    assert_eq!(id1, id2, "registering a name again gives the same id");
}

#[test]
fn test_register_account() {
    let mut engine = Rpte::new("USDT", 4);
    let alice = engine.register_account();
    let bob = engine.register_account();
    assert!(alice != bob, "two accounts have two ids");
}

#[test]
fn test_get_all_tokens() {
    let mut engine = Rpte::new("USDT", 4);
    engine.register_token("BTC");
    engine.register_token("ETH");
    let tokens = engine.get_all_tokens();
    assert_eq!(tokens.len(), 3);
    assert!(tokens.contains(&0)); // USDT
    assert!(engine.get_token_name(0) == Some("USDT"));
}

#[test]
fn test_get_all_accounts() {
    let mut engine = Rpte::new("USDT", 4);
    engine.register_account();
    engine.register_account();
    engine.register_account();
    assert_eq!(engine.get_all_accounts().len(), 3);
}

// ============================
// Issuing
// ============================

#[test]
fn test_issue() {
    let mut engine = Rpte::new("USDT", 4);
    let usdt = engine.get_token_by_name("USDT").unwrap();
    let alice = engine.register_account();
    engine.issue(alice, usdt, Decimal::new(10000, 0)).unwrap();
    assert_eq!(engine.get_node_balance(alice, usdt).unwrap(), Decimal::new(10000, 0));
}

#[test]
fn test_issue_to_nonexistent_node() {
    let mut engine = Rpte::new("USDT", 4);
    let usdt = engine.get_token_by_name("USDT").unwrap();
    let result = engine.issue(999, usdt, 100u64);
    assert!(result.is_err());
}

#[test]
fn test_issue_zero() {
    let mut engine = Rpte::new("USDT", 4);
    let usdt = engine.get_token_by_name("USDT").unwrap();
    let alice = engine.register_account();
    engine.issue(alice, usdt, Decimal::zero()).unwrap();
    assert_eq!(engine.get_node_balance(alice, usdt).unwrap(), Decimal::zero());
}

// ============================
// Transfers
// ============================

#[test]
fn test_transfer() {
    let mut engine = Rpte::new("USDT", 4);
    let usdt = engine.get_token_by_name("USDT").unwrap();
    let alice = engine.register_account();
    let bob = engine.register_account();
    engine.issue(alice, usdt, 10000u64).unwrap();

    engine.transfer(alice, bob, usdt, 3000u64);
    engine.step().unwrap();

    assert_eq!(engine.get_node_balance(alice, usdt).unwrap(), Decimal::from(7000u64));
    assert_eq!(engine.get_node_balance(bob, usdt).unwrap(), Decimal::from(3000u64));
}

#[test]
fn test_transfer_self() {
    let mut engine = Rpte::new("USDT", 4);
    let usdt = engine.get_token_by_name("USDT").unwrap();
    let alice = engine.register_account();
    engine.issue(alice, usdt, 5000u64).unwrap();

    engine.transfer(alice, alice, usdt, 1000u64);
    engine.step().unwrap();

    // a transfer to oneself changes nothing
    assert_eq!(engine.get_node_balance(alice, usdt).unwrap(), Decimal::new(5000, 0));
}

// ============================
// Limit orders
// ============================

#[test]
fn test_make_order() {
    let mut engine = Rpte::new("USDT", 4);
    let usdt = engine.get_token_by_name("USDT").unwrap();
    let btc = engine.register_token("BTC");
    let alice = engine.register_account();

    engine.issue(alice, usdt, 10000u64).unwrap();
    engine.make(alice, usdt, btc, 5000u64, 50000u64);
    engine.step().unwrap();

    // the order is open
    let orders = engine.get_all_orders();
    assert!(!orders.is_empty(), "there is an open order");
}

#[test]
fn test_make_and_match() {
    let mut engine = Rpte::new("USDT", 4);
    let usdt = engine.get_token_by_name("USDT").unwrap();
    let btc = engine.register_token("BTC");
    let alice = engine.register_account();
    let bob = engine.register_account();

    // Alice buys at 50000 USDT for a BTC
    engine.issue(alice, usdt, 50000u64).unwrap();
    engine.make(alice, usdt, btc, 50000u64, 50000u64);
    engine.step().unwrap();

    // Bob sells at 50000 USDT for a BTC
    engine.issue(bob, btc, 1u64).unwrap();
    engine.make(bob, btc, usdt, 1u64, 50000u64);
    engine.step().unwrap();

    // one more frame for the transfers and the orders to close
    engine.step().unwrap();

    // Alice has BTC, Bob has USDT
    assert!(engine.get_node_balance(alice, btc).unwrap() > Decimal::zero(), "Alice gets BTC");
    assert!(engine.get_node_balance(bob, usdt).unwrap() > Decimal::zero(), "Bob gets USDT");
}

#[test]
fn test_make_partial_fill() {
    let mut engine = Rpte::new("USDT", 4);
    let usdt = engine.get_token_by_name("USDT").unwrap();
    let btc = engine.register_token("BTC");
    let alice = engine.register_account();
    let bob = engine.register_account();

    // Alice buys one BTC at 50000
    engine.issue(alice, usdt, 50000u64).unwrap();
    engine.make(alice, usdt, btc, 50000u64, 50000u64);
    engine.step().unwrap();

    // Bob sells half a BTC at 50000
    engine.issue(bob, btc, 1u64).unwrap();
    engine.make(bob, btc, usdt, 1u64, 50000u64);
    engine.step().unwrap();

    // one more frame for the messages of the trades
    engine.step().unwrap();

    let alice_btc = engine.get_node_balance(alice, btc).unwrap();
    let bob_usdt = engine.get_node_balance(bob, usdt).unwrap();
    assert!(alice_btc > Decimal::zero(), "Alice must receive BTC");
    assert!(bob_usdt > Decimal::zero(), "Bob must receive USDT");
}

#[test]
fn test_make_price_priority() {
    let mut engine = Rpte::new("USDT", 4);
    let usdt = engine.get_token_by_name("USDT").unwrap();
    let btc = engine.register_token("BTC");
    let alice = engine.register_account();
    let bob = engine.register_account();
    let charlie = engine.register_account();

    // Alice bids 40000, Bob bids 50000
    engine.issue(alice, usdt, 40000u64).unwrap();
    engine.issue(bob, usdt, 50000u64).unwrap();
    engine.make(alice, usdt, btc, 40000u64, 40000u64);
    engine.make(bob, usdt, btc, 50000u64, 50000u64);
    engine.step().unwrap();

    // Charlie sells one BTC at 45000
    engine.issue(charlie, btc, 1u64).unwrap();
    engine.make(charlie, btc, usdt, 1u64, 45000u64);
    engine.step().unwrap();

    // one more frame for the messages of the trades
    engine.step().unwrap();

    // Bob bids more and trades first
    assert!(engine.get_node_balance(bob, btc).unwrap() > Decimal::zero(), "Bob higher bid should match first");
}

// ============================
// Market orders
// ============================

#[test]
fn test_swap_buy() {
    let mut engine = Rpte::new("USDT", 4);
    let usdt = engine.get_token_by_name("USDT").unwrap();
    let btc = engine.register_token("BTC");
    let alice = engine.register_account();
    let bob = engine.register_account();

    // Bob sells one BTC at 50000
    engine.issue(bob, btc, Decimal::new(1, 0)).unwrap();
    engine.make(bob, btc, usdt, Decimal::new(1, 0), Decimal::new(50000, 0));
    engine.step().unwrap();

    // Alice buys at the market's price
    engine.issue(alice, usdt, Decimal::new(50000, 0)).unwrap();
    let alice_balance_before = engine.get_node_balance(alice, btc).unwrap();
    engine.swap(alice, usdt, btc, Decimal::new(50000, 0));
    engine.step().unwrap();

    // one more frame for the messages of the trades
    engine.step().unwrap();

    let alice_balance_after = engine.get_node_balance(alice, btc).unwrap();
    assert!(alice_balance_after > alice_balance_before, "Alice should receive BTC from swap buy");
}

#[test]
fn test_swap_sell() {
    let mut engine = Rpte::new("USDT", 4);
    let usdt = engine.get_token_by_name("USDT").unwrap();
    let btc = engine.register_token("BTC");
    let alice = engine.register_account();
    let bob = engine.register_account();

    // Bob buys BTC at 50000
    engine.issue(bob, usdt, Decimal::new(50000, 0)).unwrap();
    engine.make(bob, usdt, btc, Decimal::new(50000, 0), Decimal::new(50000, 0));
    engine.step().unwrap();

    // Alice sells BTC at the market's price
    engine.issue(alice, btc, Decimal::new(1, 0)).unwrap();
    let alice_usdt_before = engine.get_node_balance(alice, usdt).unwrap();
    engine.swap(alice, btc, usdt, Decimal::new(1, 0));
    engine.step().unwrap();

    // one more frame for the messages of the trades
    engine.step().unwrap();

    let alice_usdt_after = engine.get_node_balance(alice, usdt).unwrap();
    assert!(alice_usdt_after > alice_usdt_before, "Alice should receive USDT from swap sell");
}

#[test]
fn test_swap_no_liquidity() {
    let mut engine = Rpte::new("USDT", 4);
    let usdt = engine.get_token_by_name("USDT").unwrap();
    let btc = engine.register_token("BTC");
    let alice = engine.register_account();

    // there is nobody to trade with
    engine.issue(alice, usdt, Decimal::new(1000, 0)).unwrap();
    engine.swap(alice, usdt, btc, Decimal::new(1000, 0));
    engine.step().unwrap(); // nothing is traded
}

// ============================
// Cancelling
// ============================

#[test]
fn test_cancel_order() {
    let mut engine = Rpte::new("USDT", 4);
    let usdt = engine.get_token_by_name("USDT").unwrap();
    let btc = engine.register_token("BTC");
    let alice = engine.register_account();

    engine.issue(alice, usdt, Decimal::new(10000, 0)).unwrap();
    engine.make(alice, usdt, btc, Decimal::new(5000, 0), Decimal::new(50000, 0));
    engine.step().unwrap();

    let orders = engine.get_all_orders();
    assert!(!orders.is_empty());
    let order_id = orders[0];

    // cancel the order
    engine.cancel_order(order_id);
    engine.step().unwrap();

    // what it held goes back
    let balance = engine.get_node_balance(alice, usdt).unwrap();
    assert_eq!(balance, Decimal::new(10000, 0), "all of it goes back");
}

// ============================
// Errors
// ============================

#[test]
fn test_balance_nonexistent_node() {
    let mut engine = Rpte::new("USDT", 4);
    let usdt = engine.get_token_by_name("USDT").unwrap();
    let result = engine.get_node_balance(999, usdt);
    assert!(result.is_err());
}

#[test]
fn test_issue_insufficient_balance() {
    let mut engine = Rpte::new("USDT", 4);
    let usdt = engine.get_token_by_name("USDT").unwrap();
    let alice = engine.register_account();
    let bob = engine.register_account();

    // Alice has no USDT, but this transfer may go below zero
    engine.transfer_with_overdraft(alice, bob, usdt, Decimal::new(100, 0));
    engine.step().unwrap();
    assert_eq!(engine.get_node_balance(alice, usdt).unwrap(), Decimal::new(-100, 0));
}

// ============================
// Prices and order books in either direction
// ============================

#[test]
fn test_get_current_price_returns_orientation() {
    let mut engine = Rpte::new("USDT", 4);
    let usdt = engine.get_token_by_name("USDT").unwrap();
    let btc = engine.register_token("BTC");
    let alice = engine.register_account();
    let bob = engine.register_account();

    // one trade of USDT and BTC
    engine.issue(alice, usdt, Decimal::new(50000, 0)).unwrap();
    engine.make(alice, usdt, btc, Decimal::new(50000, 0), Decimal::new(50000, 0));
    engine.step().unwrap();
    engine.issue(bob, btc, Decimal::new(1, 0)).unwrap();
    engine.make(bob, btc, usdt, Decimal::new(1, 0), Decimal::new(50000, 0));
    engine.step().unwrap();
    engine.step().unwrap();

    // quote token first: the price of the pair
    let (price_fwd, quote_fwd, base_fwd) = engine.get_current_price(usdt, btc).unwrap();
    assert_eq!(price_fwd, Decimal::new(50000, 0), "1 BTC = 50000 USDT");
    assert_eq!(quote_fwd, usdt);
    assert_eq!(base_fwd, btc);

    // base token first: the same price of the same pair
    let (price_rev, quote_rev, base_rev) = engine.get_current_price(btc, usdt).unwrap();
    assert_eq!(price_rev, Decimal::new(50000, 0), "one BTC costs 50000 USDT either way");
    assert_eq!(quote_rev, usdt);
    assert_eq!(base_rev, btc);
}

#[test]
fn test_get_order_book_direction_derived_from_src_dst() {
    let mut engine = Rpte::new("USDT", 4);
    let usdt = engine.get_token_by_name("USDT").unwrap();
    let btc = engine.register_token("BTC");
    let alice = engine.register_account();

    // USDT for BTC is a buy order
    engine.issue(alice, usdt, Decimal::new(50000, 0)).unwrap();
    engine.make(alice, usdt, btc, Decimal::new(50000, 0), Decimal::new(50000, 0));
    engine.step().unwrap();

    // quote token first: the buy orders
    let depth = engine.get_order_book(usdt, btc, 0).unwrap();
    assert_eq!(depth.price, Decimal::new(50000, 0));

    // base token first: the sell orders, of which there are none
    let depth = engine.get_order_book(btc, usdt, 0).unwrap();
    assert_eq!(depth.price, Decimal::zero(), "there are no sell orders");
}

// ============================
// Order books
// ============================

#[test]
fn test_get_order_book() {
    let mut engine = Rpte::new("USDT", 4);
    let usdt = engine.get_token_by_name("USDT").unwrap();
    let btc = engine.register_token("BTC");
    let alice = engine.register_account();

    engine.issue(alice, usdt, Decimal::new(50000, 0)).unwrap();
    engine.make(alice, usdt, btc, Decimal::new(50000, 0), Decimal::new(50000, 0));
    engine.step().unwrap();

    let depth = engine.get_order_book(usdt, btc, 0).unwrap();
    assert_eq!(depth.price, Decimal::new(50000, 0));
}

// ============================
// Trade logs
// ============================

#[test]
fn test_trade_logs() {
    let mut engine = Rpte::new("USDT", 4);
    let usdt = engine.get_token_by_name("USDT").unwrap();
    let btc = engine.register_token("BTC");
    let alice = engine.register_account();
    let bob = engine.register_account();

    engine.issue(alice, usdt, Decimal::new(50000, 0)).unwrap();
    engine.make(alice, usdt, btc, Decimal::new(50000, 0), Decimal::new(50000, 0));
    engine.step().unwrap();

    engine.issue(bob, btc, Decimal::new(1, 0)).unwrap();
    engine.make(bob, btc, usdt, Decimal::new(1, 0), Decimal::new(50000, 0));
    engine.step().unwrap();

    let logs = engine.get_tra_logs(usdt, btc).unwrap();
    assert!(!logs.is_empty(), "there is a trade");
}

// ============================
// Candles
// ============================

#[test]
fn test_candle_data() {
    let mut engine = Rpte::new("USDT", 4);
    let usdt = engine.get_token_by_name("USDT").unwrap();
    let btc = engine.register_token("BTC");
    let alice = engine.register_account();
    let bob = engine.register_account();

    engine.issue(alice, usdt, Decimal::new(50000, 0)).unwrap();
    engine.make(alice, usdt, btc, Decimal::new(50000, 0), Decimal::new(50000, 0));
    engine.step().unwrap();

    engine.issue(bob, btc, Decimal::new(1, 0)).unwrap();
    engine.make(bob, btc, usdt, Decimal::new(1, 0), Decimal::new(50000, 0));
    engine.step().unwrap();

    let candles = engine.get_candle_data(usdt, btc, 1).unwrap();
    assert!(!candles.is_empty(), "there is a candle");
}

#[test]
fn test_latest_candle() {
    let mut engine = Rpte::new("USDT", 4);
    let usdt = engine.get_token_by_name("USDT").unwrap();
    let btc = engine.register_token("BTC");
    let alice = engine.register_account();
    let bob = engine.register_account();

    engine.issue(alice, usdt, Decimal::new(50000, 0)).unwrap();
    engine.make(alice, usdt, btc, Decimal::new(50000, 0), Decimal::new(50000, 0));
    engine.step().unwrap();

    engine.issue(bob, btc, Decimal::new(1, 0)).unwrap();
    engine.make(bob, btc, usdt, Decimal::new(1, 0), Decimal::new(50000, 0));
    engine.step().unwrap();

    let latest = engine.latest_candle(usdt, btc, 1).unwrap();
    assert!(latest.is_some(), "there is a latest candle");
}

// ============================
// Current prices
// ============================

#[test]
fn test_get_current_price_no_trades() {
    let mut engine = Rpte::new("USDT", 4);
    let usdt = engine.get_token_by_name("USDT").unwrap();
    let btc = engine.register_token("BTC");
    let (price, _quote, _base) = engine.get_current_price(usdt, btc).unwrap();
    assert_eq!(price, Decimal::one(), "the price is one before any trade");
}

#[test]
fn test_get_current_price_after_trades() {
    let mut engine = Rpte::new("USDT", 4);
    let usdt = engine.get_token_by_name("USDT").unwrap();
    let btc = engine.register_token("BTC");
    let alice = engine.register_account();
    let bob = engine.register_account();

    engine.issue(alice, usdt, Decimal::new(50000, 0)).unwrap();
    engine.make(alice, usdt, btc, Decimal::new(50000, 0), Decimal::new(50000, 0));
    engine.step().unwrap();

    engine.issue(bob, btc, Decimal::new(1, 0)).unwrap();
    engine.make(bob, btc, usdt, Decimal::new(1, 0), Decimal::new(50000, 0));
    engine.step().unwrap();

    let (price, _quote, _base) = engine.get_current_price(usdt, btc).unwrap();
    assert!(price > Decimal::zero(), "there is a price after a trade");
}

// ============================
// Several frames
// ============================

#[test]
fn test_multiple_steps() {
    let mut engine = Rpte::new("USDT", 4);
    let usdt = engine.get_token_by_name("USDT").unwrap();
    let btc = engine.register_token("BTC");
    let alice = engine.register_account();
    let bob = engine.register_account();

    engine.issue(alice, usdt, Decimal::new(50000, 0)).unwrap();
    engine.issue(bob, btc, Decimal::new(1, 0)).unwrap();

    // an order in each of several frames
    engine.make(alice, usdt, btc, Decimal::new(50000, 0), Decimal::new(50000, 0));
    engine.step().unwrap();
    engine.make(bob, btc, usdt, Decimal::new(1, 0), Decimal::new(50000, 0));
    engine.step().unwrap();

    // one more frame for the messages of the trades
    engine.step().unwrap();

    assert!(engine.get_node_balance(alice, btc).unwrap() > Decimal::zero());
    assert!(engine.get_node_balance(bob, usdt).unwrap() > Decimal::zero());
}

// ============================
// Several accounts and tokens
// ============================

#[test]
fn test_multiple_accounts_multiple_tokens() {
    let mut engine = Rpte::new("USDT", 4);
    let usdt = engine.get_token_by_name("USDT").unwrap();
    let btc = engine.register_token("BTC");
    let eth = engine.register_token("ETH");

    let alice = engine.register_account();
    let bob = engine.register_account();
    let charlie = engine.register_account();

    // issue what they trade
    engine.issue(alice, usdt, Decimal::new(100000, 0)).unwrap();
    engine.issue(bob, btc, Decimal::new(10, 0)).unwrap();
    engine.issue(charlie, eth, Decimal::new(100, 0)).unwrap();

    // Alice buys BTC
    engine.make(alice, usdt, btc, Decimal::new(50000, 0), Decimal::new(50000, 0));
    engine.step().unwrap();

    // Bob sells BTC
    engine.make(bob, btc, usdt, Decimal::new(1, 0), Decimal::new(50000, 0));
    engine.step().unwrap();

    // Charlie buys BTC for ETH, which makes a pair of the two
    // with ETH as what is given and BTC as what is taken
    engine.make(charlie, eth, btc, Decimal::new(50, 0), Decimal::new(0_05, 0));
    engine.step().unwrap();

    let alice_btc = engine.get_node_balance(alice, btc).unwrap();
    assert!(alice_btc > Decimal::zero(), "Alice should have BTC");
}

// ============================
// Running and stopping
// ============================

#[test]
fn test_stop_engine() {
    let mut engine = Rpte::new("USDT", 4);
    engine.stop(); // a loop over frames ends at once
    // and does not block
}

// ============================
// Several orders at several prices
// ============================

#[test]
fn test_multiple_orders_continuous_matching() {
    let mut engine = Rpte::new("USDT", 4);
    let usdt = engine.get_token_by_name("USDT").unwrap();
    let btc = engine.register_token("BTC");
    let alice = engine.register_account();
    let bob = engine.register_account();
    let charlie = engine.register_account();

    // three buy orders
    engine.issue(alice, usdt, Decimal::new(30000, 0)).unwrap();
    engine.issue(bob, usdt, Decimal::new(40000, 0)).unwrap();
    engine.issue(charlie, usdt, Decimal::new(50000, 0)).unwrap();

    engine.make(alice, usdt, btc, Decimal::new(30000, 0), Decimal::new(30000, 0));
    engine.make(bob, usdt, btc, Decimal::new(40000, 0), Decimal::new(40000, 0));
    engine.make(charlie, usdt, btc, Decimal::new(50000, 0), Decimal::new(50000, 0));
    engine.step().unwrap();

    // Dave sells two BTC at 35000
    // Charlie (50000) comes before Bob (40000) and Alice (30000)
    // and only those who bid 35000 or more trade
    let dave = engine.register_account();
    engine.issue(dave, btc, Decimal::new(2, 0)).unwrap();
    engine.make(dave, btc, usdt, Decimal::new(2, 0), Decimal::new(35000, 0));
    engine.step().unwrap();

    // one more frame for the messages of the trades
    engine.step().unwrap();

    // Charlie and Bob bid enough
    // Alice does not
    let charlie_btc = engine.get_node_balance(charlie, btc).unwrap();
    let bob_btc = engine.get_node_balance(bob, btc).unwrap();
    let alice_btc = engine.get_node_balance(alice, btc).unwrap();

    assert!(charlie_btc > Decimal::zero(), "Charlie should have BTC (price 50000 >= 35000)");
    assert!(bob_btc > Decimal::zero(), "Bob should have BTC (price 40000 >= 35000)");
    assert_eq!(alice_btc, Decimal::zero(), "Alice should not have BTC (price 30000 < 35000)");
}

// ============================
// Orders of an account
// ============================

#[test]
fn test_get_order_brief() {
    let mut engine = Rpte::new("USDT", 4);
    let usdt = engine.get_token_by_name("USDT").unwrap();
    let btc = engine.register_token("BTC");
    let alice = engine.register_account();

    engine.issue(alice, usdt, Decimal::new(10000, 0)).unwrap();
    engine.make(alice, usdt, btc, Decimal::new(5000, 0), Decimal::new(50000, 0));
    engine.step().unwrap();

    let orders = engine.get_all_orders();
    assert!(!orders.is_empty());
    let brief = engine.get_order_brief(orders[0]).unwrap();
    assert_eq!(brief.src_token, usdt);
    assert_eq!(brief.dst_token, btc);
}

// ============================
// Orders of nothing
// ============================

#[test]
fn test_zero_volume_make() {
    let mut engine = Rpte::new("USDT", 4);
    let usdt = engine.get_token_by_name("USDT").unwrap();
    let btc = engine.register_token("BTC");
    let alice = engine.register_account();

    engine.issue(alice, usdt, Decimal::new(100, 0)).unwrap();
    // a limit order of nothing
    engine.make(alice, usdt, btc, Decimal::zero(), Decimal::new(50000, 0));
    engine.step().unwrap();
    // nothing happens
}

#[test]
fn test_zero_price_make() {
    let mut engine = Rpte::new("USDT", 4);
    let usdt = engine.get_token_by_name("USDT").unwrap();
    let btc = engine.register_token("BTC");
    let alice = engine.register_account();
    let bob = engine.register_account();

    // a limit order at no price
    engine.issue(alice, usdt, Decimal::new(100, 0)).unwrap();
    engine.make(alice, usdt, btc, Decimal::new(50, 0), Decimal::zero());
    engine.step().unwrap();

    engine.issue(bob, btc, Decimal::new(1, 0)).unwrap();
    engine.make(bob, btc, usdt, Decimal::new(1, 0), Decimal::zero());
    engine.step().unwrap();

    // nothing happens
}

// ============================
// Several pairs
// ============================

#[test]
fn test_multiple_pairs() {
    let mut engine = Rpte::new("USDT", 4);
    let usdt = engine.get_token_by_name("USDT").unwrap();
    let btc = engine.register_token("BTC");
    let eth = engine.register_token("ETH");
    let alice = engine.register_account();
    let bob = engine.register_account();
    let charlie = engine.register_account();

    // USDT and BTC
    engine.issue(alice, usdt, Decimal::new(50000, 0)).unwrap();
    engine.issue(bob, btc, Decimal::new(1, 0)).unwrap();

    engine.make(alice, usdt, btc, Decimal::new(50000, 0), Decimal::new(50000, 0));
    engine.step().unwrap();
    engine.make(bob, btc, usdt, Decimal::new(1, 0), Decimal::new(50000, 0));
    engine.step().unwrap();

    // USDT and ETH
    engine.issue(charlie, eth, Decimal::new(10, 0)).unwrap();
    engine.make(charlie, eth, usdt, Decimal::new(10, 0), Decimal::new(3000, 0));
    engine.step().unwrap();

    let (btc_price, _quote, _base) = engine.get_current_price(usdt, btc).unwrap();
    let (_eth_price, _eq, _eb) = engine.get_current_price(eth, usdt).unwrap();

    assert!(btc_price > Decimal::zero(), "BTC price should be set");
}

// ============================
// Precision
// ============================

#[test]
fn test_precision_setting() {
    let engine = Rpte::new("USDT", 18);
    assert_eq!(engine.get_precision(), 18);
}

// ============================
// The side of an order
// ============================

#[test]
fn test_order_book_directions() {
    let mut engine = Rpte::new("USDT", 4);
    let usdt = engine.get_token_by_name("USDT").unwrap();
    let btc = engine.register_token("BTC");
    let alice = engine.register_account();

    // USDT for BTC
    engine.issue(alice, usdt, Decimal::new(50000, 0)).unwrap();
    engine.make(alice, usdt, btc, Decimal::new(50000, 0), Decimal::new(50000, 0));
    engine.step().unwrap();

    // the buy orders
    let depth = engine.get_order_book(usdt, btc, 0).unwrap();
    assert_eq!(depth.price, Decimal::new(50000, 0));

    // there are no sell orders
    let depth = engine.get_order_book(btc, usdt, 0).unwrap();
    assert_eq!(depth.price, Decimal::zero());
}