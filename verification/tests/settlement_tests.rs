use exchange_core::engine_output::BalanceEvent;
use exchange_core::settlement::{
    latest_balance_events, settlement_plan, BalanceSide, RowKind, SettleError, SettleTrade, StoredBalance,
};

fn trade() -> SettleTrade {
    SettleTrade {
        trade_id: 77,
        buyer_user_id: 1,
        seller_user_id: 2,
        price: 100,
        quantity: 5,
        base_asset_id: 10,
        quote_asset_id: 20,
        buyer_refund: 0,
        seller_refund: 0,
        buyer_base_version: 3,
        buyer_quote_version: 4,
        seller_base_version: 5,
        seller_quote_version: 6,
    }
}

fn bal(avail: i64, frozen: i64, version: i64) -> StoredBalance {
    StoredBalance { avail, frozen, version }
}

#[test]
fn a_trade_in_step_is_settled_into_four_rows() {
    let rows = settlement_plan(&trade(), bal(0, 0, 2), bal(1000, 500, 4), bal(50, 5, 4), bal(0, 0, 6)).unwrap();
    assert_eq!((rows[0].user_id, rows[0].asset_id, rows[0].version), (1, 10, 3));
    assert_eq!((rows[0].delta_avail, rows[0].avail, rows[0].frozen, rows[0].kind), (5, 5, 0, RowKind::TradeCredit));
    assert_eq!((rows[1].version, rows[1].delta_frozen, rows[1].avail, rows[1].frozen), (5, -500, 500, 0));
    assert_eq!(rows[1].kind.as_str(), "trade_debit");
    assert_eq!((rows[2].user_id, rows[2].version, rows[2].delta_frozen, rows[2].avail, rows[2].frozen), (2, 5, -5, 45, 0));
    assert_eq!((rows[3].asset_id, rows[3].version, rows[3].delta_avail, rows[3].avail), (20, 7, 500, 500));
    assert!(rows.iter().all(|r| r.ref_id == 77));
}

#[test]
fn a_refund_moves_two_versions() {
    let mut t = trade();
    t.buyer_refund = 3;
    t.seller_refund = 1;
    let rows = settlement_plan(&t, bal(0, 0, 3), bal(1000, 500, 3), bal(50, 5, 5), bal(0, 0, 5)).unwrap();
    assert_eq!((rows[1].version, rows[2].version), (5, 7));
}

#[test]
fn versions_out_of_step_are_refused_in_order() {
    assert_eq!(
        settlement_plan(&trade(), bal(0, 0, 4), bal(0, 0, 0), bal(0, 0, 4), bal(0, 0, 6)),
        Err(SettleError::VersionMismatch { side: BalanceSide::BuyerBase, stored: 4, expected: 3 })
    );
    assert_eq!(
        settlement_plan(&trade(), bal(0, 0, 3), bal(0, 0, 2), bal(0, 0, 4), bal(0, 0, 6)),
        Err(SettleError::VersionGap { side: BalanceSide::BuyerQuote, stored: 2, expected: 4 })
    );
    assert_eq!(
        settlement_plan(&trade(), bal(0, 0, 3), bal(0, 0, 4), bal(0, 0, 5), bal(0, 0, 9)),
        Err(SettleError::VersionMismatch { side: BalanceSide::SellerQuote, stored: 9, expected: 6 })
    );
}

fn event(user_id: u64, asset_id: u32, seq: u64) -> BalanceEvent {
    BalanceEvent {
        user_id,
        asset_id,
        seq,
        delta_avail: 0,
        delta_frozen: 0,
        avail: Some(seq * 10),
        frozen: Some(0),
        event_type: "deposit".to_string(),
        ref_id: 0,
    }
}

#[test]
fn only_the_latest_event_of_each_balance_is_kept() {
    let events = vec![
        event(1, 1, 3),
        event(2, 1, 1),
        event(1, 1, 5),
        event(1, 2, 1),
        event(1, 1, 4),
        event(2, 1, 1),
    ];
    let kept = latest_balance_events(&events);
    assert_eq!(kept, vec![2, 1, 3]);
    assert!(latest_balance_events(&Vec::new()).is_empty());
}
