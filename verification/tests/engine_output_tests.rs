use exchange_core::engine_output::{
    BalanceEvent, CompletionReason, DepositInput, EngineOutput, EngineOutputBuilder, InputBundle,
    InputData, OrderCompletion, OrderUpdate, PlaceOrderInput, TradeOutput, GENESIS_HASH,
};

// The serialized form of an input is produced outside the library; these
// tests stand in fixed bytes for it.
const PLACE_BYTES: &[u8] = br#"{"PlaceOrder":{"order_id":12345}}"#;
const DEPOSIT_BYTES: &[u8] = br#"{"Deposit":{"user_id":1001,"asset_id":1}}"#;

fn place_input(seq: u64, cid: &str) -> InputBundle {
    InputBundle::new(
        seq,
        InputData::PlaceOrder(PlaceOrderInput {
            order_id: 12345,
            user_id: 1001,
            symbol_id: 0,
            side: 1,
            order_type: 1,
            price: 15000,
            quantity: 100,
            cid: cid.into(),
            created_at: 1700000000000,
        }),
        PLACE_BYTES,
    )
}

fn deposit_input(seq: u64, asset_id: u32, amount: u64, created_at: u64) -> InputBundle {
    InputBundle::new(
        seq,
        InputData::Deposit(DepositInput { user_id: 1001, asset_id, amount, created_at }),
        DEPOSIT_BYTES,
    )
}

fn deposit_event(asset_id: u32, amount: u64) -> BalanceEvent {
    BalanceEvent {
        user_id: 1001,
        asset_id,
        seq: 1,
        delta_avail: amount as i64,
        delta_frozen: 0,
        avail: Some(amount),
        frozen: Some(0),
        event_type: "deposit".into(),
        ref_id: 0,
    }
}

#[test]
fn test_engine_output_hash() {
    let input = place_input(1, "test_order");

    let output = EngineOutput::new(
        1,
        GENESIS_HASH,
        input,
        Some(OrderUpdate {
            order_id: 12345,
            user_id: 1001,
            status: 1,
            filled_qty: 0,
            remaining_qty: 100,
            avg_price: 0,
            updated_at: 1700000000000,
        }),
        vec![],
        vec![BalanceEvent {
            user_id: 1001,
            asset_id: 2,
            seq: 1,
            delta_avail: -1500000,
            delta_frozen: 1500000,
            avail: Some(8500000),
            frozen: Some(1500000),
            event_type: "lock".into(),
            ref_id: 12345,
        }],
    );

    assert_ne!(output.hash, 0);
    assert!(output.verify());
    assert!(output.verify_prev_hash(GENESIS_HASH));
}

#[test]
fn test_chain_verification() {
    let output1 = EngineOutput::new(
        1,
        GENESIS_HASH,
        deposit_input(1, 1, 1000000, 1700000000000),
        None,
        vec![],
        vec![deposit_event(1, 1000000)],
    );

    let output2 = EngineOutput::new(
        2,
        output1.hash,
        deposit_input(2, 2, 2000000, 1700000001000),
        None,
        vec![],
        vec![deposit_event(2, 2000000)],
    );

    assert!(output2.verify_chain(&output1));
    assert!(output2.verify_prev_hash(output1.hash));

    assert!(output1.verify());
    assert!(output2.verify());
}

#[test]
fn test_input_crc() {
    let input = deposit_input(1, 1, 1000000, 1700000000000);
    assert!(input.verify_crc(DEPOSIT_BYTES));
}

#[test]
fn test_engine_output_builder() {
    let mut builder = EngineOutputBuilder::new(1, GENESIS_HASH);

    builder.set_input(place_input(100, "test_cid"));

    builder.set_order_update(OrderUpdate {
        order_id: 12345,
        user_id: 1001,
        status: 1,
        filled_qty: 100,
        remaining_qty: 0,
        avg_price: 14950,
        updated_at: 1700000000001,
    });

    builder.add_trade(TradeOutput {
        trade_id: 99999,
        match_seq: 1,
        symbol_id: 1,
        buy_order_id: 12345,
        sell_order_id: 12346,
        buyer_user_id: 1001,
        seller_user_id: 1002,
        price: 14950,
        quantity: 100,
        base_asset_id: 1,
        quote_asset_id: 2,
        buyer_refund: 5000,
        seller_refund: 0,
        settled_at: 0,
    });

    builder.add_balance_event(BalanceEvent {
        user_id: 1001,
        asset_id: 2,
        seq: 1,
        delta_avail: -1495000,
        delta_frozen: 0,
        avail: Some(505000),
        frozen: Some(0),
        event_type: "trade_debit".into(),
        ref_id: 99999,
    });

    builder.add_balance_event(BalanceEvent {
        user_id: 1001,
        asset_id: 1,
        seq: 1,
        delta_avail: 100,
        delta_frozen: 0,
        avail: Some(100),
        frozen: Some(0),
        event_type: "trade_credit".into(),
        ref_id: 99999,
    });

    let output = builder.build().expect("should build successfully");

    assert_eq!(output.output_seq, 1);
    assert_eq!(output.prev_hash, GENESIS_HASH);
    assert!(output.verify());
    assert!(output.order_update.is_some());
    assert_eq!(output.trades.len(), 1);
    assert_eq!(output.balance_events.len(), 2);
    assert_eq!(output.symbol_id, 1);
}

#[test]
fn test_engine_output_builder_no_input() {
    let builder = EngineOutputBuilder::new(1, GENESIS_HASH);
    assert!(builder.build().is_none());
}

#[test]
fn the_checksum_is_crc32_of_the_serialized_bytes() {
    let input = InputBundle::new(1, InputData::Deposit(DepositInput { user_id: 1, asset_id: 1, amount: 1, created_at: 1 }), b"123456789");
    assert_eq!(input.crc, 0xCBF4_3926);
    assert!(!input.verify_crc(b"123456780"));
}

#[test]
fn the_hash_is_xxh3_of_the_documented_layout() {
    let output = EngineOutput::new(
        7,
        42,
        InputBundle {
            input_seq: 3,
            crc: 0xAABBCCDD,
            data: InputData::Deposit(DepositInput { user_id: 5, asset_id: 2, amount: 900, created_at: 11 }),
        },
        None,
        vec![],
        vec![],
    );
    let mut bytes = Vec::new();
    bytes.extend_from_slice(&7u64.to_le_bytes());
    bytes.extend_from_slice(&42u64.to_le_bytes());
    bytes.extend_from_slice(&0u32.to_le_bytes());
    bytes.extend_from_slice(&3u64.to_le_bytes());
    bytes.extend_from_slice(&0xAABBCCDDu32.to_le_bytes());
    bytes.push(3);
    bytes.extend_from_slice(&5u64.to_le_bytes());
    bytes.extend_from_slice(&2u32.to_le_bytes());
    bytes.extend_from_slice(&900u64.to_le_bytes());
    bytes.extend_from_slice(&11u64.to_le_bytes());
    bytes.push(0);
    bytes.extend_from_slice(&0u32.to_le_bytes());
    bytes.extend_from_slice(&0u32.to_le_bytes());
    assert_eq!(output.hash, xxhash_rust::xxh3::xxh3_64(&bytes));
    assert_eq!(output.compute_hash(), output.hash);
}

#[test]
fn tampering_breaks_verification_but_lifecycle_events_do_not() {
    let mut output = EngineOutput::new(
        1,
        GENESIS_HASH,
        deposit_input(1, 1, 10, 1),
        None,
        vec![],
        vec![deposit_event(1, 10)],
    );
    output.order_completions.push(OrderCompletion {
        order_id: 1,
        reason: CompletionReason::Filled,
        completed_at: 2,
    });
    assert!(output.verify());
    output.balance_events[0].delta_avail = 11;
    assert!(!output.verify());
}

#[test]
fn a_gap_in_sequence_breaks_the_chain() {
    let first = EngineOutput::new(1, GENESIS_HASH, deposit_input(1, 1, 10, 1), None, vec![], vec![]);
    let skipped = EngineOutput::new(3, first.hash, deposit_input(2, 1, 10, 2), None, vec![], vec![]);
    assert!(!skipped.verify_chain(&first));
    let wrong_prev = EngineOutput::new(2, first.hash ^ 1, deposit_input(2, 1, 10, 2), None, vec![], vec![]);
    assert!(!wrong_prev.verify_chain(&first));
    assert!(!wrong_prev.verify_prev_hash(first.hash));
}
