use rpte::route::discover;
use rpte::{AnyNode, Decimal, Pair, Route, RouteHop, Rpte};

fn name(id: usize) -> Option<String> {
    match id {
        0 => Some("USDT".to_string()),
        1 => Some("BTC".to_string()),
        2 => Some("ETH".to_string()),
        _ => None,
    }
}

#[test]
fn route_auto_is_unresolved() {
    let r = Route::auto(3, 12);
    assert!(!r.is_resolved());
    assert!(!r.is_direct());
    assert_eq!(r.display(|_| None), "auto(3)→auto(12)");
}

#[test]
fn route_on_a_pair_is_direct() {
    let r = Route::on(0, 1, 7);
    assert!(r.is_resolved());
    assert!(r.is_direct());
    assert_eq!(r.display(name), "USDT↔BTC (pair 7)");
    assert_eq!(Route::on(0, 9, 10).display(name), "USDT↔ (pair 10)");
}

#[test]
fn route_via_hops_is_resolved() {
    let hops = vec![
        RouteHop { pair_id: 5, src_token: 0, dst_token: 1 },
        RouteHop { pair_id: 6, src_token: 1, dst_token: 2 },
    ];
    let r = Route::via(0, 2, hops);
    assert!(r.is_resolved());
    assert!(!r.is_direct());
    assert_eq!(r.display(name), "USDT→BTC → BTC→ETH");
    assert!(!Route::via(0, 2, vec![]).is_resolved());
    let hop = RouteHop { pair_id: 3, src_token: 0, dst_token: 1 };
    assert!(Route::via(0, 1, vec![hop]).is_direct());
}

#[test]
fn the_shortest_route_is_found() {
    let price = Decimal::one();
    let pairs = vec![
        (10, 0, 1, price),
        (11, 1, 2, price),
        (12, 2, 3, price),
        (13, 3, 0, price),
        (14, 5, 6, price),
        (15, 7, 7, price),
    ];
    let hops = discover(&pairs, 0, 2);
    assert_eq!(hops.len(), 2);
    assert_eq!((hops[0].pair_id, hops[0].src_token, hops[0].dst_token), (10, 0, 1));
    assert_eq!((hops[1].pair_id, hops[1].src_token, hops[1].dst_token), (11, 1, 2));
    let hops = discover(&pairs, 0, 3);
    assert_eq!(hops.len(), 1);
    assert_eq!((hops[0].pair_id, hops[0].src_token, hops[0].dst_token), (13, 0, 3));
    assert_eq!(discover(&pairs, 2, 0).len(), 2);
    assert_eq!(discover(&pairs, 6, 5).len(), 1);
    assert!(discover(&pairs, 0, 6).is_empty());
    assert!(discover(&pairs, 4, 0).is_empty());
    assert!(discover(&pairs, 0, 0).is_empty());
    assert!(discover(&pairs, 7, 7).is_empty());
    assert!(discover(&vec![], 0, 1).is_empty());
}

#[test]
fn the_engine_finds_routes_over_its_pairs() {
    let mut engine = Rpte::new("USDT", 4);
    let btc = engine.register_token("BTC");
    let eth = engine.register_token("ETH");
    let doge = engine.register_token("DOGE");
    assert!(engine.route_discover(btc, eth).is_empty());
    engine.register_pair(AnyNode::Pair(Pair::new(0, btc, Decimal::one(), 100, 4)));
    let second = engine.register_pair(AnyNode::Pair(Pair::new(0, eth, Decimal::one(), 100, 4)));
    let hops = engine.route_discover(btc, eth);
    assert_eq!(hops.len(), 2);
    assert_eq!((hops[0].src_token, hops[0].dst_token), (btc, 0));
    assert_eq!((hops[1].pair_id, hops[1].src_token, hops[1].dst_token), (second, 0, eth));
    assert!(engine.route_discover(btc, doge).is_empty());
}
