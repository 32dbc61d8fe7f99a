use rpte::{Decimal, Drt, OrderBook, OrderBrief};

fn d(num: i64, scale: u32) -> Decimal {
    Decimal::new(num, scale)
}

fn brief(id: usize, direction: Drt, price: i64, time: u64, volume: i64) -> OrderBrief {
    OrderBrief {
        id,
        direction,
        src_token: 0,
        dst_token: 1,
        src_volume: d(volume, 0),
        dst_volume: Decimal::zero(),
        price: d(price, 0),
        step_count_created: time,
    }
}

#[test]
fn the_best_price_comes_first_and_then_the_earliest_order() {
    let mut book = OrderBook::new();
    assert!(book.insert(&brief(1, Drt::Buy, 10, 5, 1)));
    assert!(book.insert(&brief(2, Drt::Buy, 12, 7, 1)));
    assert!(book.insert(&brief(3, Drt::Buy, 12, 6, 1)));
    assert!(book.insert(&brief(4, Drt::Sell, 20, 5, 1)));
    assert!(book.insert(&brief(5, Drt::Sell, 18, 9, 1)));
    assert!(book.insert(&brief(6, Drt::Sell, 18, 8, 1)));
    assert_eq!(book.buy_iter().iter().map(|b| b.id).collect::<Vec<_>>(), vec![3, 2, 1]);
    assert_eq!(book.sell_iter().iter().map(|b| b.id).collect::<Vec<_>>(), vec![6, 5, 4]);
    assert_eq!(book.best_buy().unwrap().id, 3);
    assert_eq!(book.best_sell().unwrap().id, 6);
    assert_eq!((book.buy_count(), book.sell_count(), book.total_count()), (3, 3, 6));
}

#[test]
fn an_order_is_put_in_once() {
    let mut book = OrderBook::new();
    assert!(book.insert(&brief(1, Drt::Buy, 10, 5, 1)));
    assert!(!book.insert(&brief(1, Drt::Buy, 11, 5, 2)));
    assert_eq!(book.total_count(), 1);
    assert_eq!(book.buy_count(), 1);
    assert_eq!(book.best_buy().unwrap().price, d(11, 0));
    assert_eq!(book.best_buy().unwrap().src_volume, d(2, 0));
}

#[test]
fn cancelling_undoes_putting_in() {
    let mut book = OrderBook::new();
    book.insert(&brief(1, Drt::Sell, 10, 5, 1));
    book.insert(&brief(2, Drt::Sell, 9, 5, 1));
    assert!(book.contains(2));
    assert!(book.cancel(2));
    assert!(!book.contains(2));
    assert!(!book.cancel(2));
    assert_eq!(book.best_sell().unwrap().id, 1);
    assert_eq!(book.sell_count(), 1);
}

#[test]
fn orders_of_one_price_and_time_all_stand() {
    let mut book = OrderBook::new();
    assert!(book.insert(&brief(2, Drt::Buy, 100, 5, 4)));
    assert!(book.insert(&brief(1, Drt::Buy, 100, 5, 3)));
    assert_eq!((book.buy_count(), book.total_count()), (2, 2));
    assert!(book.contains(1) && book.contains(2));
    assert_eq!(book.get_depth(Drt::Buy, 1).unwrap(), vec![(d(100, 0), d(7, 0))]);
    assert_eq!(book.buy_iter().iter().map(|b| b.id).collect::<Vec<_>>(), vec![1, 2]);
    assert!(book.update_volume(2, d(9, 0), Decimal::zero()));
    assert_eq!(book.buy_iter()[0].src_volume, d(3, 0));
    assert!(book.cancel(1));
    assert_eq!((book.buy_count(), book.total_count()), (1, 1));
    assert_eq!(book.best_buy().unwrap().id, 2);
}

#[test]
fn volumes_are_set_in_place() {
    let mut book = OrderBook::new();
    book.insert(&brief(1, Drt::Buy, 10, 5, 8));
    book.insert(&brief(2, Drt::Buy, 10, 6, 8));
    assert!(book.update_volume(2, d(3, 0), d(1, 0)));
    assert!(!book.update_volume(9, d(3, 0), d(1, 0)));
    let second = &book.buy_iter()[1];
    assert_eq!((second.id, second.src_volume, second.dst_volume), (2, d(3, 0), d(1, 0)));
    assert_eq!(book.best_buy().unwrap().src_volume, d(8, 0));
}

#[test]
fn the_best_order_is_taken_out() {
    let mut book = OrderBook::new();
    assert!(book.pop_best_buy().is_none());
    assert!(book.pop_best_sell().is_none());
    book.insert(&brief(1, Drt::Buy, 10, 5, 1));
    book.insert(&brief(2, Drt::Buy, 11, 5, 1));
    book.insert(&brief(3, Drt::Sell, 12, 5, 1));
    assert_eq!(book.pop_best_buy().unwrap().id, 2);
    assert_eq!(book.pop_best_sell().unwrap().id, 3);
    assert!(!book.contains(2));
    assert_eq!(book.total_count(), 1);
}

#[test]
fn levels_sum_up_the_orders_at_a_price() {
    let mut book = OrderBook::new();
    book.insert(&brief(1, Drt::Sell, 10, 5, 1));
    book.insert(&brief(2, Drt::Sell, 10, 6, 2));
    book.insert(&brief(3, Drt::Sell, 11, 5, 4));
    book.insert(&brief(4, Drt::Sell, 13, 5, 8));
    let levels = book.get_depth(Drt::Sell, 2).unwrap();
    assert_eq!(levels, vec![(d(10, 0), d(3, 0)), (d(11, 0), d(4, 0))]);
    assert_eq!(book.get_depth(Drt::Sell, 9).unwrap().len(), 3);
    assert!(book.get_depth(Drt::Sell, 0).unwrap().is_empty());
    assert!(book.get_depth(Drt::Buy, 3).unwrap().is_empty());
}

#[test]
fn there_are_as_many_levels_as_prices_up_to_the_depth() {
    let mut book = OrderBook::new();
    for (id, price, volume) in [(1, 12, 1), (2, 10, 2), (3, 12, 4), (4, 11, 8), (5, 10, 16)] {
        book.insert(&brief(id, Drt::Sell, price, 5, volume));
    }
    let all = vec![(d(10, 0), d(18, 0)), (d(11, 0), d(8, 0)), (d(12, 0), d(5, 0))];
    assert_eq!(book.get_depth(Drt::Sell, 9).unwrap(), all);
    assert_eq!(book.get_depth(Drt::Sell, 2).unwrap(), all[..2].to_vec());
}
