use dex_orderbook::amount::Amount;
use dex_orderbook::book::{EngineError, OrderBook};
use dex_orderbook::engine::{Fill, Order, OrderType};

fn units(n: u128) -> Amount {
    Amount::from_integer(n)
}

fn order(id: &[u8], order_type: OrderType, price: u128, quantity: u128) -> Order {
    Order::new(id.to_vec(), order_type, units(price), units(quantity), 7, 0)
}

fn empty_book() -> OrderBook {
    OrderBook::new(0, 1, 2, 100)
}

fn resting_count(book: &OrderBook) -> usize {
    let mut n = 0;
    for level in book.bids.levels.iter().chain(book.asks.levels.iter()) {
        n += level.queue.len();
    }
    n
}

fn check_fill(fill: &Fill, maker: &[u8], taker: &[u8], price: u128, quantity: u128) {
    assert_eq!(fill.maker, maker.to_vec());
    assert_eq!(fill.taker, taker.to_vec());
    assert_eq!(fill.price, units(price));
    assert_eq!(fill.quantity, units(quantity));
}

#[test]
fn ask_rests_then_bid_fills_part_of_it() {
    let mut book = empty_book();
    let (fills, resting) = book.submit_limit(order(b"A", OrderType::AskLimit, 10, 5)).unwrap();
    assert!(fills.is_empty());
    let resting = resting.unwrap();
    assert_eq!(resting.quantity, units(5));
    assert!(resting.market_maker);

    let (fills, resting) = book.submit_limit(order(b"B", OrderType::BidLimit, 10, 3)).unwrap();
    assert_eq!(fills.len(), 1);
    check_fill(&fills[0], b"A", b"B", 10, 3);
    assert!(resting.is_none());
    assert_eq!(book.best_ask(), Some(units(10)));
    assert_eq!(book.best_bid(), None);
    assert_eq!(book.asks.levels[0].queue[0].id, b"A".to_vec());
    assert_eq!(book.asks.levels[0].queue[0].quantity, units(2));
    assert_eq!(book.orders.len(), 1);
    assert_eq!(book.orders[0].quantity, units(2));
}

#[test]
fn bid_walks_two_ask_levels() {
    let mut book = empty_book();
    book.submit_limit(order(b"D", OrderType::AskLimit, 10, 2)).unwrap();
    book.submit_limit(order(b"E", OrderType::AskLimit, 11, 10)).unwrap();
    let (fills, resting) = book.submit_limit(order(b"C", OrderType::BidLimit, 12, 5)).unwrap();
    assert_eq!(fills.len(), 2);
    check_fill(&fills[0], b"D", b"C", 10, 2);
    check_fill(&fills[1], b"E", b"C", 11, 3);
    assert!(resting.is_none());
    assert_eq!(book.asks.levels.len(), 1);
    assert_eq!(book.asks.levels[0].price_level, units(11));
    assert_eq!(book.asks.levels[0].queue[0].id, b"E".to_vec());
    assert_eq!(book.asks.levels[0].queue[0].quantity, units(7));
    assert!(book.bids.levels.is_empty());
}

#[test]
fn bid_below_best_ask_rests() {
    let mut book = empty_book();
    book.submit_limit(order(b"S", OrderType::AskLimit, 10, 4)).unwrap();
    let (fills, resting) = book.submit_limit(order(b"P", OrderType::BidLimit, 5, 1)).unwrap();
    assert!(fills.is_empty());
    assert_eq!(resting.unwrap().price, units(5));
    assert_eq!(book.best_bid(), Some(units(5)));
    assert_eq!(book.bids.levels[0].queue[0].id, b"P".to_vec());
    assert_eq!(book.best_ask(), Some(units(10)));
}

#[test]
fn index_and_queues_agree_after_a_sequence() {
    let mut book = empty_book();
    book.submit_limit(order(b"a1", OrderType::AskLimit, 10, 5)).unwrap();
    book.submit_limit(order(b"a2", OrderType::AskLimit, 12, 5)).unwrap();
    book.submit_limit(order(b"b1", OrderType::BidLimit, 8, 3)).unwrap();
    book.submit_limit(order(b"b2", OrderType::BidLimit, 11, 7)).unwrap();
    book.cancel(&b"b1".to_vec()).unwrap();
    assert_eq!(book.orders.len(), resting_count(&book));
    for entry in book.orders.iter() {
        let levels = match entry.side {
            dex_orderbook::engine::Side::Bid => &book.bids.levels,
            dex_orderbook::engine::Side::Ask => &book.asks.levels,
        };
        let mut found = 0;
        for level in levels.iter() {
            for o in level.queue.iter() {
                if o.id == entry.id {
                    assert_eq!(o.quantity, entry.quantity);
                    assert_eq!(level.price_level, entry.price);
                    found += 1;
                }
            }
        }
        assert_eq!(found, 1);
    }
}

#[test]
fn book_never_left_crossed() {
    let mut book = empty_book();
    let prices = [(OrderType::AskLimit, 10), (OrderType::BidLimit, 9), (OrderType::BidLimit, 12),
        (OrderType::AskLimit, 8), (OrderType::BidLimit, 11), (OrderType::AskLimit, 11)];
    for (i, (t, p)) in prices.iter().enumerate() {
        book.submit_limit(order(&[i as u8], *t, *p, 3)).unwrap();
        if let (Some(bid), Some(ask)) = (book.best_bid(), book.best_ask()) {
            assert!(bid.inner < ask.inner);
        }
    }
}

#[test]
fn filled_plus_resting_is_the_submitted_quantity() {
    let mut book = empty_book();
    book.submit_limit(order(b"x", OrderType::BidLimit, 10, 2)).unwrap();
    book.submit_limit(order(b"y", OrderType::BidLimit, 9, 3)).unwrap();
    let (fills, resting) = book.submit_limit(order(b"z", OrderType::AskLimit, 9, 7)).unwrap();
    let filled: u128 = fills.iter().map(|f| f.quantity.inner).sum();
    assert_eq!(filled, units(5).inner);
    assert_eq!(filled + resting.unwrap().quantity.inner, units(7).inner);
}

#[test]
fn earlier_order_at_a_price_fills_first() {
    let mut book = empty_book();
    book.submit_limit(order(b"first", OrderType::AskLimit, 10, 2)).unwrap();
    book.submit_limit(order(b"second", OrderType::AskLimit, 10, 2)).unwrap();
    let (fills, _) = book.submit_limit(order(b"t1", OrderType::BidLimit, 10, 1)).unwrap();
    assert_eq!(fills[0].maker, b"first".to_vec());
    let (fills, _) = book.submit_limit(order(b"t2", OrderType::BidLimit, 10, 2)).unwrap();
    assert_eq!(fills.len(), 2);
    check_fill(&fills[0], b"first", b"t2", 10, 1);
    check_fill(&fills[1], b"second", b"t2", 10, 1);
    assert_eq!(book.asks.levels[0].queue[0].id, b"second".to_vec());
}

#[test]
fn cancel_of_gone_orders_is_not_found() {
    let mut book = empty_book();
    book.submit_limit(order(b"m", OrderType::AskLimit, 10, 2)).unwrap();
    book.submit_limit(order(b"k", OrderType::AskLimit, 11, 2)).unwrap();
    book.submit_limit(order(b"t", OrderType::BidLimit, 10, 2)).unwrap();
    let before = book.to_api();
    assert_eq!(book.cancel(&b"m".to_vec()).unwrap_err(), EngineError::NotFound);
    let cancelled = book.cancel(&b"k".to_vec()).unwrap();
    assert_eq!(cancelled.quantity, units(2));
    assert_eq!(cancelled.price, units(11));
    let after_cancel = book.to_api();
    assert_eq!(book.cancel(&b"k".to_vec()).unwrap_err(), EngineError::NotFound);
    let again = book.to_api();
    assert_eq!(again.asks, after_cancel.asks);
    assert_eq!(again.bids, after_cancel.bids);
    assert_eq!(before.asks.len(), 1);
    assert!(again.asks.is_empty());
    assert_eq!(book.orders.len(), 0);
}

#[test]
fn cancel_keeps_other_orders_of_the_level() {
    let mut book = empty_book();
    book.submit_limit(order(b"p", OrderType::BidLimit, 10, 1)).unwrap();
    book.submit_limit(order(b"q", OrderType::BidLimit, 10, 2)).unwrap();
    book.submit_limit(order(b"r", OrderType::BidLimit, 10, 3)).unwrap();
    let o = book.cancel(&b"q".to_vec()).unwrap();
    assert_eq!(o.id, b"q".to_vec());
    let queue: Vec<Vec<u8>> = book.bids.levels[0].queue.iter().map(|o| o.id.clone()).collect();
    assert_eq!(queue, vec![b"p".to_vec(), b"r".to_vec()]);
    assert_eq!(book.orders.len(), 2);
}

#[test]
fn submit_errors() {
    let mut book = empty_book();
    assert_eq!(
        book.submit_limit(order(b"a", OrderType::BidLimit, 0, 1)).unwrap_err(),
        EngineError::PriceOrQuantityIsZero
    );
    assert_eq!(
        book.submit_limit(order(b"a", OrderType::BidLimit, 1, 0)).unwrap_err(),
        EngineError::PriceOrQuantityIsZero
    );
    assert_eq!(
        book.submit_limit(order(b"a", OrderType::NoneType, 1, 1)).unwrap_err(),
        EngineError::OrderTypeIsNone
    );
    assert_eq!(
        book.submit_limit(order(b"a", OrderType::BidMarket, 1, 1)).unwrap_err(),
        EngineError::UnsupportedOrderType
    );
    book.submit_limit(order(b"a", OrderType::BidLimit, 1, 1)).unwrap();
    assert_eq!(
        book.submit_limit(order(b"a", OrderType::AskLimit, 5, 1)).unwrap_err(),
        EngineError::DuplicateOrderId
    );
    book.enabled = false;
    assert_eq!(
        book.submit_limit(order(b"b", OrderType::BidLimit, 1, 1)).unwrap_err(),
        EngineError::TradingPairDisabled
    );
    assert_eq!(book.orders.len(), 1);
}

#[test]
fn market_data_tracks_trades() {
    let mut book = empty_book();
    assert_eq!(book.market_data.len(), 1);
    book.submit_limit(order(b"a", OrderType::AskLimit, 10, 5)).unwrap();
    book.submit_limit(order(b"b", OrderType::BidLimit, 8, 1)).unwrap();
    book.on_period_start(101);
    let point = book.market_data[1];
    assert_eq!(point.current_block, 101);
    assert_eq!(point.opening_bid, units(8));
    assert_eq!(point.opening_ask, units(10));
    assert_eq!(point.volume, units(0));
    book.submit_limit(order(b"c", OrderType::BidLimit, 10, 5)).unwrap();
    let point = book.market_data[1];
    assert_eq!(point.volume, units(5));
    assert_eq!(point.closing_ask, units(0));
    assert_eq!(point.closing_bid, units(8));
    assert_eq!(book.market_data[0].volume, units(0));
}

#[test]
fn on_fill_adds_volume() {
    let mut book = empty_book();
    book.submit_limit(order(b"a", OrderType::AskLimit, 10, 5)).unwrap();
    let fill = Fill { taker: b"t".to_vec(), maker: b"a".to_vec(), price: units(10), quantity: units(3) };
    book.on_fill(&fill);
    let point = book.market_data[0];
    assert_eq!(point.volume, units(3));
    assert_eq!(point.closing_ask, units(10));
    assert_eq!(point.closing_bid, units(0));
}

#[test]
fn snapshot_sums_levels() {
    let mut book = empty_book();
    book.submit_limit(order(b"a", OrderType::AskLimit, 10, 5)).unwrap();
    book.submit_limit(order(b"b", OrderType::AskLimit, 10, 2)).unwrap();
    book.submit_limit(order(b"c", OrderType::AskLimit, 12, 1)).unwrap();
    let api = book.to_api();
    assert_eq!(api.asks.len(), 2);
    assert_eq!(api.asks[0].price_level, units(10));
    assert_eq!(api.asks[0].amount, units(7));
    assert_eq!(api.asks[1].amount, units(1));
    assert!(api.bids.is_empty());
    assert!(api.enabled);
    assert_eq!(api.market_data.len(), 1);
}

#[test]
fn advanced_orders_wait_on_their_side() {
    let mut book = empty_book();
    book.submit_advanced_order(order(b"s1", OrderType::BidStopLimit, 12, 1)).unwrap();
    book.submit_advanced_order(order(b"s2", OrderType::AskMarket, 9, 2)).unwrap();
    book.submit_advanced_order(order(b"s3", OrderType::BidFillKill, 13, 1)).unwrap();
    assert_eq!(book.advanced_bid_orders.prices(), vec![units(13), units(12)]);
    assert_eq!(book.advanced_ask_orders.prices(), vec![units(9)]);
    assert!(book.bids.levels.is_empty());
    assert!(book.orders.is_empty());
    assert_eq!(book.nonce, 3);
    assert_eq!(
        book.submit_advanced_order(order(b"s4", OrderType::BidLimit, 1, 1)).unwrap_err(),
        EngineError::UnsupportedOrderType
    );
    assert_eq!(
        book.submit_advanced_order(order(b"s4", OrderType::PostOnly, 1, 1)).unwrap_err(),
        EngineError::UnsupportedOrderType
    );
    assert_eq!(
        book.submit_limit(order(b"s2", OrderType::BidLimit, 1, 1)).unwrap_err(),
        EngineError::DuplicateOrderId
    );
    book.submit_limit(order(b"r", OrderType::AskLimit, 20, 1)).unwrap();
    assert_eq!(
        book.submit_advanced_order(order(b"r", OrderType::AskStopLoss, 1, 1)).unwrap_err(),
        EngineError::DuplicateOrderId
    );
    let pending = book.get_advanced_bids();
    assert_eq!(pending.len(), 2);
}
