use exchange_core::fast_ulid::FastUlidHalfGen;
use exchange_core::order_book::OrderBook;
use exchange_core::order_utils::{Order, OrderError, OrderType, Side};

fn order(order_id: u64, user_id: u64, side: Side, price: u64, quantity: u64) -> Order {
    Order {
        order_id,
        user_id,
        symbol_id: 1,
        side,
        order_type: OrderType::Limit,
        price,
        quantity,
        timestamp: 1_700_000_000_000,
    }
}

#[test]
fn resting_orders_sit_on_their_side() {
    let mut book = OrderBook::new(1);
    let mut gen = FastUlidHalfGen::new();
    let trades = book.add_order(order(1, 10, Side::Buy, 100, 5), &mut gen, 1000).unwrap();
    assert!(trades.is_empty());
    let trades = book.add_order(order(2, 11, Side::Sell, 105, 3), &mut gen, 1000).unwrap();
    assert!(trades.is_empty());
    assert_eq!(book.bids.get(&100).unwrap().len(), 1);
    assert_eq!(book.asks.get(&105).unwrap().len(), 1);
    assert!(book.active_order_ids.contains(&1));
    assert_eq!(book.order_index.get(&2), Some(&(Side::Sell, 105)));
    assert_eq!(book.match_seq, 0);
}

#[test]
fn a_crossing_buy_takes_the_best_asks_first_at_their_prices() {
    let mut book = OrderBook::new(1);
    let mut gen = FastUlidHalfGen::new();
    book.add_order(order(1, 20, Side::Sell, 102, 4), &mut gen, 1000).unwrap();
    book.add_order(order(2, 21, Side::Sell, 101, 3), &mut gen, 1000).unwrap();
    book.add_order(order(3, 22, Side::Sell, 101, 2), &mut gen, 1000).unwrap();

    let trades = book.add_order(order(4, 30, Side::Buy, 102, 8), &mut gen, 2000).unwrap();
    assert_eq!(trades.len(), 3);
    // price first, then time
    assert_eq!((trades[0].sell_order_id, trades[0].price, trades[0].quantity), (2, 101, 3));
    assert_eq!((trades[1].sell_order_id, trades[1].price, trades[1].quantity), (3, 101, 2));
    assert_eq!((trades[2].sell_order_id, trades[2].price, trades[2].quantity), (1, 102, 3));
    for (i, t) in trades.iter().enumerate() {
        assert_eq!(t.buy_order_id, 4);
        assert_eq!(t.buy_user_id, 30);
        assert_eq!(t.match_seq, i as u64 + 1);
    }
    assert!(trades[0].trade_id < trades[1].trade_id && trades[1].trade_id < trades[2].trade_id);
    // the partly filled maker keeps its place with what is left
    let level = book.asks.get(&102).unwrap();
    assert_eq!(level.len(), 1);
    assert_eq!(level[0].quantity, 1);
    assert!(book.asks.get(&101).is_none());
    // filled makers leave the active set and the index; the taker stays active
    assert!(!book.active_order_ids.contains(&2));
    assert!(book.order_index.get(&3).is_none());
    assert!(book.active_order_ids.contains(&4));
    assert!(book.bids.is_empty());
    assert_eq!(book.match_seq, 3);
}

#[test]
fn a_sell_rests_what_the_bids_cannot_fill() {
    let mut book = OrderBook::new(1);
    let mut gen = FastUlidHalfGen::new();
    book.add_order(order(1, 20, Side::Buy, 99, 2), &mut gen, 1000).unwrap();
    book.add_order(order(2, 21, Side::Buy, 100, 1), &mut gen, 1000).unwrap();
    let trades = book.add_order(order(3, 30, Side::Sell, 100, 5), &mut gen, 1000).unwrap();
    assert_eq!(trades.len(), 1);
    assert_eq!((trades[0].buy_order_id, trades[0].sell_order_id, trades[0].price, trades[0].quantity), (2, 3, 100, 1));
    // 99 does not cross 100: the rest of the sell rests at 100
    let level = book.asks.get(&100).unwrap();
    assert_eq!(level[0].order_id, 3);
    assert_eq!(level[0].quantity, 4);
    assert_eq!(book.bids.get(&99).unwrap()[0].quantity, 2);
}

#[test]
fn a_duplicate_active_id_is_refused() {
    let mut book = OrderBook::new(1);
    let mut gen = FastUlidHalfGen::new();
    book.add_order(order(7, 1, Side::Buy, 100, 1), &mut gen, 1000).unwrap();
    let err = book.add_order(order(7, 2, Side::Sell, 200, 1), &mut gen, 1000).unwrap_err();
    assert_eq!(err, "Duplicate order ID: 7");
    assert!(book.asks.is_empty());
}

#[test]
fn cancelling_removes_the_order_and_its_empty_level() {
    let mut book = OrderBook::new(1);
    let mut gen = FastUlidHalfGen::new();
    book.add_order(order(1, 1, Side::Buy, 100, 1), &mut gen, 1000).unwrap();
    book.add_order(order(2, 2, Side::Buy, 100, 2), &mut gen, 1000).unwrap();
    let removed = book.remove_order(1).unwrap();
    assert_eq!(removed.order_id, 1);
    assert_eq!(book.bids.get(&100).unwrap().len(), 1);
    assert!(!book.active_order_ids.contains(&1));
    let removed = book.remove_order(2).unwrap();
    assert_eq!(removed.quantity, 2);
    assert!(book.bids.is_empty());
    match book.remove_order(2) {
        Err(OrderError::OrderNotFound { order_id }) => assert_eq!(order_id, 2),
        other => panic!("unexpected {:?}", other),
    }
}

#[test]
fn the_book_never_stays_crossed() {
    let mut book = OrderBook::new(1);
    let mut gen = FastUlidHalfGen::new();
    let prices = [100u64, 97, 103, 99, 101, 98, 102, 100, 96, 104];
    for (i, p) in prices.iter().enumerate() {
        let side = if i % 2 == 0 { Side::Buy } else { Side::Sell };
        book.add_order(order(i as u64 + 1, i as u64, side, *p, 3), &mut gen, 1000).unwrap();
        if let (Some((b, _)), Some((a, _))) = (book.bids.iter().next_back(), book.asks.iter().next()) {
            assert!(b < a);
        }
    }
}
