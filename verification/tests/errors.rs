use rpte::{AnyNode, Decimal, Error, Ledger, Pair, Rpte, Token};

fn d(num: i64, scale: u32) -> Decimal {
    Decimal::new(num, scale)
}

/// A ledger with a token and two accounts.
fn ledger() -> (Ledger, usize, usize, usize) {
    let mut l = Ledger::new(100, 4);
    let usdt = l.register_token("USDT");
    let alice = l.register_account();
    let bob = l.register_account();
    (l, usdt, alice, bob)
}

#[test]
fn an_unknown_node_is_not_found() {
    let engine = Rpte::new("USDT", 4);
    let e = engine.get_node_balance(99, 0).unwrap_err();
    assert!(matches!(e, Error::NodeNotFound { id: 99, len: 1 }));
    assert_eq!(e.message(), "node 99 not found (len=1)");
}

#[test]
fn an_unknown_token_is_not_registered() {
    let engine = Rpte::new("USDT", 4);
    let e = engine.get_node_balance(0, 5).unwrap_err();
    assert!(matches!(e, Error::TokenNotRegistered(5)));
    assert_eq!(e.message(), "token 5 is not registered");
}

#[test]
fn a_node_that_is_no_pair_is_told() {
    let mut engine = Rpte::new("USDT", 4);
    let e = engine.get_pair_quote_token(0).unwrap_err();
    assert!(matches!(e, Error::NotAPairNode(0)));
    assert_eq!(e.message(), "node 0 is not a PairNode");
    assert!(matches!(engine.get_pair_base_token(0), Err(Error::NotAPairNode(0))));
    assert!(matches!(engine.set_pair_fee(0, None), Err(Error::NotAPairNode(0))));
}

#[test]
fn a_node_that_is_no_order_is_told() {
    let mut engine = Rpte::new("USDT", 4);
    let alice = engine.register_account();
    engine.return_order(alice);
    assert_eq!(engine.new_order(), alice);
    let e = engine.get_order_brief(alice).unwrap_err();
    assert!(matches!(e, Error::NotAnOrderNode(1)));
    assert_eq!(e.message(), "node 1 is not an OrderNode");
}

#[test]
fn a_node_that_is_no_account_is_told() {
    let engine = Rpte::new("USDT", 4);
    let e = engine.get_account_orders(0).unwrap_err();
    assert!(matches!(e, Error::NotAnAccountNode(0)));
    assert_eq!(e.message(), "node 0 is not an AccountNode");
    assert!(matches!(engine.list_account_orders(0), Err(Error::NotAnAccountNode(0))));
}

#[test]
fn an_unknown_order_is_not_registered() {
    let engine = Rpte::new("USDT", 4);
    let e = engine.get_order_brief(7).unwrap_err();
    assert!(matches!(e, Error::OrderNotRegistered(7)));
    assert_eq!(e.message(), "order 7 is not registered");
}

#[test]
fn a_node_that_lacks_something_does_not_pay() {
    let (mut l, usdt, alice, bob) = ledger();
    assert!(matches!(l.issue(alice, usdt, d(15, 1)), Some(Ok(()))));
    let e = l.transfer(alice, bob, usdt, d(2, 0), false).unwrap().unwrap_err();
    assert_eq!(e.message(), "insufficient balance: node 1 token 0 has 1.5 need 2");
    assert_eq!(l.get_node_balance(alice, usdt).unwrap(), d(15, 1));
    assert_eq!(l.get_node_balance(bob, usdt).unwrap(), Decimal::zero());
}

#[test]
fn a_node_is_not_pushed_below_zero() {
    let (mut l, usdt, alice, bob) = ledger();
    assert!(matches!(l.issue(alice, usdt, d(1, 0)), Some(Ok(()))));
    let e = l.transfer(alice, bob, usdt, d(-3, 0), false).unwrap().unwrap_err();
    assert_eq!(e.message(), "negative destination: node 2 token 0 current 0 volume -3");
    assert_eq!(l.get_node_balance(alice, usdt).unwrap(), d(1, 0));
}

#[test]
fn a_transfer_beyond_the_nodes_is_out_of_bounds() {
    let (mut l, usdt, alice, _) = ledger();
    let e = l.transfer(alice, 8, usdt, d(1, 0), false).unwrap().unwrap_err();
    assert!(matches!(e, Error::IndexOutOfBounds { id: 8, len: 3 }));
    assert_eq!(e.message(), "index 8 out of bounds (len=3)");
    let e = l.transfer_all(9, alice).unwrap().unwrap_err();
    assert!(matches!(e, Error::IndexOutOfBounds { id: 9, len: 3 }));
}

#[test]
fn a_token_is_not_paired_with_itself() {
    let mut engine = Rpte::new("USDT", 4);
    let e = engine.get_current_price(0, 0).unwrap_err();
    assert!(matches!(e, Error::SwapNotAllowed { src: 0, dst: 0 }));
    assert_eq!(e.message(), "token 0 and token 0 may not be paired");
}

#[test]
fn a_number_too_large_is_told() {
    let mut engine = Rpte::new("USDT", 4);
    let btc = engine.register_token("BTC");
    let alice = engine.register_account();
    engine.issue(alice, btc, i64::MAX).unwrap();
    let pair = Pair::new(0, btc, d(i64::MAX, 0), 10, 4);
    engine.register_pair(AnyNode::Pair(pair));
    assert_eq!(engine.convert_value(btc, 0, d(i64::MAX, 0)), None);
    let e = engine.account_equity_value(alice, None).unwrap_err();
    assert!(matches!(e, Error::Overflow));
    assert_eq!(e.message(), "a number is too large");
    assert!(matches!(engine.get_order_book(0, btc, usize::MAX), Err(Error::Overflow)));
}

#[test]
fn the_other_errors_have_texts() {
    assert_eq!(Error::NotATokenNode(3).message(), "node 3 is not a TokenNode");
    assert_eq!(Error::OrderOpenFailed(12).message(), "order 12 failed to open");
}

#[test]
fn a_token_node_is_not_a_registered_token() {
    let mut engine = Rpte::new("USDT", 4);
    let id = engine.register_node(AnyNode::Token(Token::new("LOOSE")));
    assert!(matches!(engine.get_token_total_supply(id), Err(Error::TokenNotRegistered(1))));
    assert!(engine.get_token_by_name("LOOSE").is_none());
}

#[test]
fn an_unknown_pair_is_told() {
    let mut engine = Rpte::new("USDT", 4);
    assert!(matches!(engine.get_pair_quote_token(99), Err(Error::PairNotFound(99))));
    assert!(matches!(engine.get_pair_base_token(99), Err(Error::PairNotFound(99))));
    assert!(matches!(engine.set_pair_fee(99, None), Err(Error::PairNotFound(99))));
    assert_eq!(Error::PairNotFound(99).message(), "pair 99 not found");
}
