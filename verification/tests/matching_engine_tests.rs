use exchange_core::ledger::{LedgerCommand, OrderUpdate};
use exchange_core::matching_engine::MatchingEngine;
use exchange_core::order_utils::{OrderError, OrderStatus, OrderType, Side};

const BTC_USDT: u32 = 1;

fn engine() -> MatchingEngine {
    let mut e = MatchingEngine::with_state(Vec::new(), 0, 0);
    e.register_symbol(BTC_USDT, "BTC_USDT".to_string(), 1, 2).unwrap();
    e
}

#[test]
fn registering_a_symbol_twice_is_refused() {
    let mut e = engine();
    assert_eq!(e.order_books.len(), 2);
    assert!(e.order_books[0].is_none());
    assert_eq!(
        e.register_symbol(BTC_USDT, "X".to_string(), 1, 2),
        Err("Symbol ID 1 is already in use".to_string())
    );
    e.register_symbol(0, "ETH_USDT".to_string(), 3, 2).unwrap();
    assert_eq!(e.order_books.len(), 2);
    assert_eq!(e.asset_map.get(&0), Some(&(3, 2)));
}

#[test]
fn orders_for_unknown_symbols_or_active_ids_are_refused() {
    let mut e = engine();
    assert!(matches!(
        e.add_order(9, 1, Side::Buy, OrderType::Limit, 100, 1, 7, 1000),
        Err(OrderError::InvalidSymbol { symbol_id: 9 })
    ));
    assert_eq!(e.add_order(BTC_USDT, 1, Side::Buy, OrderType::Limit, 100, 1, 7, 1000).unwrap(), 1);
    assert!(matches!(
        e.add_order(BTC_USDT, 1, Side::Sell, OrderType::Limit, 100, 1, 8, 1000),
        Err(OrderError::DuplicateOrderId { order_id: 1 })
    ));
    assert_eq!(e.get_output_seq(), 0);
}

#[test]
fn matching_counts_fills_and_moves_the_state_hash() {
    let mut e = engine();
    e.add_order(BTC_USDT, 1, Side::Sell, OrderType::Limit, 100, 2, 7, 1000).unwrap();
    let h1 = e.state_hash;
    assert_ne!(h1, 0);
    e.add_order(BTC_USDT, 2, Side::Sell, OrderType::Limit, 101, 2, 7, 1000).unwrap();
    e.add_order(BTC_USDT, 3, Side::Buy, OrderType::Limit, 101, 3, 8, 1000).unwrap();
    assert_eq!(e.get_output_seq(), 2);
    let book = e.order_books[BTC_USDT as usize].as_ref().unwrap();
    assert!(book.asks.get(&100).is_none());
    assert_eq!(book.asks.get(&101).unwrap()[0].quantity, 1);
    assert_ne!(e.state_hash, h1);
}

#[test]
fn outputs_record_locks_trades_and_events_and_chain() {
    let mut e = engine();
    let (_, first) = e
        .add_order_and_build_output(1, BTC_USDT, 10, Side::Sell, OrderType::Limit, 100, 5, 7, 1000, "s1".to_string(), b"in1")
        .unwrap();
    assert!(first.verify());
    assert_eq!(first.output_seq, 1);
    assert_eq!(first.prev_hash, 0);
    assert_eq!(first.balance_events.len(), 1);
    let lock = &first.balance_events[0];
    assert_eq!((lock.asset_id, lock.seq, lock.delta_avail, lock.delta_frozen), (1, 1, -5, 5));
    assert_eq!((lock.avail, lock.frozen, lock.event_type.as_str()), (Some(u64::MAX - 5), Some(5), "lock"));
    let up = first.order_update.clone().unwrap();
    assert_eq!((up.status, up.filled_qty, up.remaining_qty, up.avg_price), (1, 0, 5, 0));
    assert!(first.input.verify_crc(b"in1"));

    let (oid, second) = e
        .add_order_and_build_output(2, BTC_USDT, 11, Side::Buy, OrderType::Limit, 102, 3, 8, 2000, "b1".to_string(), b"in2")
        .unwrap();
    assert_eq!(oid, 11);
    assert!(second.verify());
    assert!(second.verify_chain(&first));
    assert_eq!(e.last_output_hash, second.hash);
    assert_eq!(second.symbol_id, BTC_USDT);
    assert_eq!(second.trades.len(), 1);
    let t = &second.trades[0];
    assert_eq!((t.buy_order_id, t.sell_order_id, t.price, t.quantity), (11, 10, 100, 3));
    assert_eq!((t.base_asset_id, t.quote_asset_id, t.buyer_refund), (1, 2, 6));
    // lock, then four events for the fill
    assert_eq!(second.balance_events.len(), 5);
    let kinds: Vec<&str> = second.balance_events.iter().map(|b| b.event_type.as_str()).collect();
    assert_eq!(kinds, vec!["lock", "trade_refund", "trade_credit", "trade_debit", "trade_credit"]);
    let lock = &second.balance_events[0];
    assert_eq!((lock.asset_id, lock.delta_avail, lock.delta_frozen), (2, -306, 306));
    let refund = &second.balance_events[1];
    assert_eq!((refund.user_id, refund.asset_id, refund.seq, refund.delta_avail, refund.delta_frozen), (8, 2, 1, 6, -306));
    let seller_credit = &second.balance_events[4];
    assert_eq!((seller_credit.user_id, seller_credit.asset_id, seller_credit.delta_avail), (7, 2, 300));
    let up = second.order_update.clone().unwrap();
    assert_eq!((up.status, up.filled_qty, up.remaining_qty, up.avg_price), (3, 3, 0, 100));
}

#[test]
fn a_missing_book_rejects_and_a_duplicate_id_is_an_error() {
    let mut e = MatchingEngine::with_state(Vec::new(), 7, 99);
    // assets known, but no book under this id
    e.asset_map.insert(4, (1, 2));
    let (_, out) = e
        .add_order_and_build_output(1, 4, 1, Side::Buy, OrderType::Limit, 10, 2, 5, 1, "c".to_string(), b"x")
        .unwrap();
    assert_eq!(out.output_seq, 8);
    assert_eq!(out.prev_hash, 99);
    assert_eq!(out.order_update.unwrap().status, 5);
    assert_eq!(out.balance_events.len(), 1);

    let mut e = engine();
    e.add_order_and_build_output(1, BTC_USDT, 1, Side::Buy, OrderType::Limit, 10, 2, 5, 1, "c".to_string(), b"x")
        .unwrap();
    let last = e.last_output_hash;
    match e.add_order_and_build_output(2, BTC_USDT, 1, Side::Buy, OrderType::Limit, 10, 2, 5, 1, "c".to_string(), b"x") {
        Err(OrderError::Other(msg)) => assert_eq!(msg, "Duplicate order ID: 1"),
        other => panic!("unexpected {:?}", other.map(|(o, _)| o)),
    }
    assert_eq!(e.get_output_seq(), 2);
    assert_eq!(e.last_output_hash, last);
}

#[test]
fn test_duplicate_order_id() {
    let mut engine = MatchingEngine::with_state(Vec::new(), 0, 0);
    engine.register_symbol(1, "BTC_USDT".to_string(), 1, 2).unwrap();

    engine.add_order_batch(vec![(1, 10, Side::Buy, OrderType::Limit, 100, 10, 101, 100)]);

    // Add same order ID again
    let (results, _) = engine.add_order_batch(vec![(1, 10, Side::Buy, OrderType::Limit, 100, 10, 101, 100)]);

    assert!(results[0].is_err());
    match &results[0] {
        Err(OrderError::DuplicateOrderId { .. }) => {}
        Err(OrderError::Other(msg)) if msg.contains("Duplicate") => {}
        Ok(_) => panic!("Duplicate order should fail"),
        _ => panic!("Expected DuplicateOrderId error, got {:?}", results[0]),
    }
}

#[test]
fn a_batch_is_taken_in_order() {
    let mut e = engine();
    let (results, commands) = e.add_order_batch(vec![
        (BTC_USDT, 1, Side::Sell, OrderType::Limit, 100, 5, 7, 1),
        (BTC_USDT, 2, Side::Buy, OrderType::Limit, 100, 3, 8, 2),
        (BTC_USDT, 1, Side::Sell, OrderType::Limit, 100, 1, 7, 3),
        (9, 4, Side::Buy, OrderType::Limit, 100, 1, 8, 4),
    ]);
    assert_eq!(results.len(), 4);
    assert!(matches!(results[0], Ok(1)));
    assert!(matches!(results[1], Ok(2)));
    assert!(matches!(&results[2], Err(OrderError::Other(m)) if m == "Duplicate order ID: 1"));
    assert!(matches!(results[3], Ok(4)));
    // the one fill (3 of order 1 against order 2) is recorded for settlement
    assert_eq!(commands.len(), 1);
    match &commands[0] {
        LedgerCommand::MatchExecBatch(batch) => {
            assert_eq!(batch.len(), 1);
            assert_eq!((batch[0].buy_order_id, batch[0].sell_order_id, batch[0].quantity), (2, 1, 3));
            assert_eq!((batch[0].base_asset, batch[0].quote_asset, batch[0].buyer_refund), (1, 2, 0));
        }
        other => panic!("expected a MatchExecBatch, got {:?}", other),
    }
    // one fill of 3 from order 1, whose remaining 2 rest
    assert_eq!(e.get_output_seq(), 1);
    let book = e.order_books[BTC_USDT as usize].as_ref().unwrap();
    assert_eq!(book.asks.get(&100).unwrap().len(), 1);
    assert_eq!(book.asks.get(&100).unwrap()[0].quantity, 2);
    assert_eq!(e.state_hash, 0);
}

#[test]
fn test_order_full_fill() {
    let mut engine = MatchingEngine::with_state(Vec::new(), 0, 0);
    engine.register_symbol(1, "BTC_USDT".to_string(), 1, 2).unwrap();

    // Place Sell Order (Maker)
    let _ = engine.add_order_batch(vec![(1, 1, Side::Sell, OrderType::Limit, 50000, 1000, 102, 100)]);

    // Place Matching Buy Order (Taker) - Full Fill
    let (results, commands) = engine.add_order_batch(vec![(1, 2, Side::Buy, OrderType::Limit, 50000, 1000, 101, 200)]);

    assert!(results[0].is_ok());

    let match_batch = commands.iter().find_map(|c| match c {
        LedgerCommand::MatchExecBatch(batch) => Some(batch),
        _ => None,
    });

    assert!(match_batch.is_some(), "Should emit MatchExecBatch");
    let batch = match_batch.unwrap();
    assert_eq!(batch.len(), 1);
    let trade = &batch[0];

    assert_eq!(trade.buy_order_id, 2);
    assert_eq!(trade.sell_order_id, 1);
    assert_eq!(trade.quantity, 1000); // Full fill
}

#[test]
fn test_order_partial_fill() {
    let mut engine = MatchingEngine::with_state(Vec::new(), 0, 0);
    engine.register_symbol(1, "BTC_USDT".to_string(), 1, 2).unwrap();

    // Maker: Sell 1000
    let _ = engine.add_order_batch(vec![(1, 1, Side::Sell, OrderType::Limit, 50000, 1000, 102, 100)]);

    // Taker: Buy 500 (Partial of Maker, Full of Taker)
    let (_res, commands) = engine.add_order_batch(vec![(1, 2, Side::Buy, OrderType::Limit, 50000, 500, 101, 200)]);

    let match_batch = commands.iter().find_map(|c| match c {
        LedgerCommand::MatchExecBatch(batch) => Some(batch),
        _ => None,
    });

    assert!(match_batch.is_some(), "Should emit MatchExecBatch for partial fill");
    let batch = match_batch.unwrap();
    assert_eq!(batch.len(), 1);
    let trade = &batch[0];

    assert_eq!(trade.quantity, 500);
}

#[test]
fn a_buy_below_its_limit_gets_the_difference_back() {
    let mut engine = MatchingEngine::with_state(Vec::new(), 0, 0);
    engine.register_symbol(1, "BTC_USDT".to_string(), 1, 2).unwrap();
    let (_, none) = engine.add_order_batch(vec![(1, 1, Side::Sell, OrderType::Limit, 90, 10, 7, 1)]);
    assert!(none.is_empty());
    let (_, commands) = engine.add_order_batch(vec![(1, 2, Side::Buy, OrderType::Limit, 100, 4, 8, 2)]);
    match &commands[0] {
        LedgerCommand::MatchExecBatch(batch) => {
            assert_eq!((batch[0].price, batch[0].quantity, batch[0].buyer_refund), (90, 4, 40));
        }
        other => panic!("expected a MatchExecBatch, got {:?}", other),
    }
}

#[test]
fn a_huge_order_against_an_empty_book_rests() {
    let mut e = engine();
    let q: u64 = 4_000_000_000_000_000_000;
    let (_, out) = e
        .add_order_and_build_output(1, BTC_USDT, 1, Side::Sell, OrderType::Limit, 100, q, 7, 1, "c".to_string(), b"in")
        .unwrap();
    let u = out.order_update.unwrap();
    assert_eq!((u.status, u.filled_qty, u.remaining_qty), (1, 0, q));
    assert!(out.trades.is_empty());
}

#[test]
fn cancelling_a_resting_order_releases_its_funds() {
    let mut e = engine();
    let (res, _) = e.add_order_batch(vec![(BTC_USDT, 100, Side::Buy, OrderType::Limit, 50000, 1000, 101, 100)]);
    let order_id = *res[0].as_ref().unwrap();
    let (res, _) = e.add_order_batch(vec![(BTC_USDT, 200, Side::Sell, OrderType::Limit, 60000, 7, 102, 100)]);
    assert!(res[0].is_ok());
    let hash_before = e.state_hash;

    let cmds = e.cancel_order(BTC_USDT, order_id).unwrap();
    assert_eq!(cmds.len(), 2);
    assert!(matches!(cmds[0], LedgerCommand::Unlock { user_id: 101, asset: 2, amount: 50_000_000 }));
    match &cmds[1] {
        LedgerCommand::OrderUpdate(u) => {
            assert_eq!((u.order_id, u.user_id, u.symbol_id, u.side, u.order_type), (100, 101, BTC_USDT, 1, 1));
            assert_eq!((u.price, u.qty, u.filled_qty, u.timestamp), (50000, 1000, 0, 100));
            assert_eq!(u.status, OrderStatus::Cancelled);
        }
        other => panic!("expected an order update, got {:?}", other),
    }
    assert_ne!(e.state_hash, hash_before);
    let book = e.order_books[BTC_USDT as usize].as_ref().unwrap();
    assert!(book.bids.is_empty());
    assert!(!book.active_order_ids.contains(&order_id));

    let cmds = e.cancel_order(BTC_USDT, 200).unwrap();
    assert!(matches!(cmds[0], LedgerCommand::Unlock { user_id: 102, asset: 1, amount: 7 }));

    let hash = e.state_hash;
    assert!(matches!(e.cancel_order(BTC_USDT, order_id), Err(OrderError::OrderNotFound { order_id: 100 })));
    assert!(matches!(e.cancel_order(7, order_id), Err(OrderError::InvalidSymbol { symbol_id: 7 })));
    assert_eq!(e.state_hash, hash);
}

fn order_updates(cmds: &[LedgerCommand]) -> Vec<&OrderUpdate> {
    cmds.iter()
        .filter_map(|c| match c {
            LedgerCommand::OrderUpdate(u) => Some(u),
            _ => None,
        })
        .collect()
}

#[test]
fn test_order_cancellation() {
    let mut engine = MatchingEngine::with_state(Vec::new(), 0, 0);
    engine.register_symbol(1, "BTC_USDT".to_string(), 1, 2).unwrap();

    let (res, _) = engine.add_order_batch(vec![(1, 100, Side::Buy, OrderType::Limit, 50000, 1000, 101, 100)]);
    let order_id = *res[0].as_ref().unwrap();

    let cmds = engine.cancel_order(1, order_id).unwrap();

    let updates = order_updates(&cmds);
    assert_eq!(updates.len(), 1, "Should emit Cancelled update");
    let cancelled_update = updates[0];
    assert_eq!(cancelled_update.status, OrderStatus::Cancelled);
    assert_eq!(cancelled_update.qty, 1000);
    assert_eq!(cancelled_update.filled_qty, 0);
    assert_eq!(cancelled_update.order_id, 100);
    assert_eq!(cancelled_update.user_id, 101);
    let unlocks: Vec<&LedgerCommand> = cmds.iter().filter(|c| matches!(c, LedgerCommand::Unlock { .. })).collect();
    assert_eq!(unlocks.len(), 1);
    assert!(matches!(unlocks[0], LedgerCommand::Unlock { user_id: 101, asset: 2, amount: 50_000_000 }));
    assert!(engine.order_books[1].as_ref().unwrap().bids.is_empty());
}

#[test]
fn test_order_cancellation_emits_update() {
    let mut engine = MatchingEngine::with_state(Vec::new(), 0, 0);
    engine.register_symbol(1, "BTC_USDT".to_string(), 100, 200).unwrap();

    let (_results, _commands) = engine.add_order_batch(vec![(1, 101, Side::Buy, OrderType::Limit, 50000, 1, 1, 1000)]);

    let cancel_commands = engine.cancel_order(1, 101).expect("Cancel should succeed");

    let updates = order_updates(&cancel_commands);
    assert_eq!(updates.len(), 1, "Should emit exactly one OrderUpdate");
    let update = updates[0];
    assert_eq!(update.order_id, 101);
    assert_eq!(update.status, OrderStatus::Cancelled);
    assert_eq!(update.user_id, 1);
}

#[test]
fn test_cancel_nonexistent_order_fails() {
    let mut engine = MatchingEngine::with_state(Vec::new(), 0, 0);
    engine.register_symbol(1, "BTC_USDT".to_string(), 100, 200).unwrap();

    let result = engine.cancel_order(1, 9999);

    assert!(result.is_err(), "Cancelling non-existent order should fail");
}

#[test]
fn test_partial_filling_cancellation() {
    let mut engine = MatchingEngine::with_state(Vec::new(), 0, 0);
    engine.register_symbol(1, "BTC_USDT".to_string(), 1, 2).unwrap();

    let (res, _) = engine.add_order_batch(vec![(1, 1, Side::Sell, OrderType::Limit, 50000, 1000, 102, 100)]);
    let maker_oid = *res[0].as_ref().unwrap();

    engine.add_order_batch(vec![(1, 2, Side::Buy, OrderType::Limit, 50000, 400, 101, 200)]);

    let cmds = engine.cancel_order(1, maker_oid).unwrap();

    let updates = order_updates(&cmds);
    let cancelled_update = updates.first().expect("Should emit Cancelled update");
    assert_eq!(cancelled_update.status, OrderStatus::Cancelled);
    assert_eq!(cancelled_update.qty, 600, "Should report remaining quantity");
    assert_eq!(cancelled_update.filled_qty, 0);
}
