use dex_orderbook::amount::Amount;
use dex_orderbook::engine::{Order, OrderType, Side};
use dex_orderbook::levels::PriceLevelIndex;

fn units(n: u128) -> Amount {
    Amount::from_integer(n)
}

fn ask(id: u8, price: u128) -> Order {
    Order::new(vec![id], OrderType::AskLimit, units(price), units(1), 1, 0)
}

fn price_list(index: &PriceLevelIndex) -> Vec<u128> {
    index.prices().iter().map(|p| p.inner / units(1).inner).collect()
}

#[test]
fn test_empty_pop() {
    let mut index = PriceLevelIndex::new(Side::Bid);
    assert!(index.pop_best_level().is_none());
}

#[test]
fn test_empty_peek() {
    let empty = PriceLevelIndex::new(Side::Bid);
    assert!(empty.best().is_none());
}

#[test]
fn test_drain() {
    let mut q = PriceLevelIndex::new(Side::Bid);
    for p in [9u128, 8, 7, 6, 5, 4, 3, 2, 1] {
        q.insert(Order::new(vec![p as u8], OrderType::BidLimit, units(p), units(1), 1, 0));
    }
    assert_eq!(q.drain().into_iter().take(5).count(), 5);
    assert!(q.is_empty());
}

#[test]
fn test_extend_ref() {
    let mut a = PriceLevelIndex::new(Side::Ask);
    a.insert(ask(1, 1));
    a.insert(ask(2, 2));
    for (id, p) in [(3u8, 3u128), (4, 4), (5, 5)] {
        a.insert(ask(id, p));
    }
    assert_eq!(a.len(), 5);
    assert_eq!(price_list(&a), [1, 2, 3, 4, 5]);

    let mut a = PriceLevelIndex::new(Side::Ask);
    a.insert(ask(1, 1));
    a.insert(ask(2, 2));
    let mut b = PriceLevelIndex::new(Side::Ask);
    b.insert(ask(3, 3));
    b.insert(ask(4, 4));
    b.insert(ask(5, 5));
    for level in b.drain() {
        for o in level.queue {
            a.insert(o);
        }
    }
    assert_eq!(a.len(), 5);
    assert_eq!(price_list(&a), [1, 2, 3, 4, 5]);
}

#[test]
fn best_level_is_highest_bid_and_lowest_ask() {
    let mut bids = PriceLevelIndex::new(Side::Bid);
    let mut asks = PriceLevelIndex::new(Side::Ask);
    for (i, p) in [5u128, 9, 7].iter().enumerate() {
        bids.insert(Order::new(vec![i as u8], OrderType::BidLimit, units(*p), units(1), 1, 0));
        asks.insert(ask(i as u8, *p));
    }
    assert_eq!(bids.best().unwrap().price_level, units(9));
    assert_eq!(asks.best().unwrap().price_level, units(5));
    assert_eq!(price_list(&bids), [9, 7, 5]);
    let popped = asks.pop_best_level().unwrap();
    assert_eq!(popped.price_level, units(5));
    assert_eq!(price_list(&asks), [7, 9]);
}

#[test]
fn same_price_joins_the_end_of_its_level() {
    let mut asks = PriceLevelIndex::new(Side::Ask);
    asks.insert(ask(1, 4));
    asks.insert(ask(2, 4));
    asks.insert(ask(3, 3));
    assert_eq!(asks.len(), 2);
    let level = asks.best().unwrap();
    assert_eq!(level.queue[0].id, vec![3]);
    let second: Vec<Vec<u8>> = asks.levels[1].queue.iter().map(|o| o.id.clone()).collect();
    assert_eq!(second, vec![vec![1], vec![2]]);
}

#[test]
fn remove_takes_order_and_empty_level() {
    let mut asks = PriceLevelIndex::new(Side::Ask);
    asks.insert(ask(1, 4));
    asks.insert(ask(2, 6));
    assert!(asks.remove(&vec![1], &units(6)).is_none());
    let o = asks.remove(&vec![1], &units(4)).unwrap();
    assert_eq!(o.id, vec![1]);
    assert_eq!(price_list(&asks), [6]);
}

#[test]
fn level_and_order_accessors() {
    let mut index = PriceLevelIndex::new(Side::Ask);
    index.insert(Order::new(vec![4, 2], OrderType::AskLimit, units(3), units(2), 11, 99));
    let mut levels = index.drain();
    let level = &mut levels[0];
    assert_eq!(*level.get_price_level(), units(3));
    let o = &level.get_orders()[0];
    assert_eq!(*o.get_id(), vec![4, 2]);
    assert_eq!(*o.get_origin(), 11);
    assert_eq!(*o.get_expiry(), 99);
    assert_eq!(*o.get_order_type(), OrderType::AskLimit);
    assert_eq!(*o.get_price(), units(3));
    assert_eq!(*o.get_quantity(), units(2));
    assert!(!o.is_market_maker());
    level.get_orders_mut()[0].set_quantity(units(1));
    assert_eq!(level.queue[0].quantity, units(1));
    let copy = level.queue[0].duplicate();
    assert_eq!(copy.id, vec![4, 2]);
    assert_eq!(copy.quantity, units(1));
}
