use exchange_core::ledger::MatchExecData;
use exchange_core::reconciliation::{ReconciliationStats, StoredTrade};

fn trade(trade_id: u64, price: u64, quantity: u64, buyer: u64) -> MatchExecData {
    MatchExecData {
        trade_id,
        buy_order_id: 1,
        sell_order_id: 2,
        buyer_user_id: buyer,
        seller_user_id: 9,
        price,
        quantity,
        base_asset: 1,
        quote_asset: 2,
        buyer_refund: 0,
        seller_refund: 0,
        match_seq: 1,
    }
}

#[test]
fn each_comparison_is_classified() {
    let mut stats = ReconciliationStats::default();
    let logged = trade(7, 100, 5, 3);
    stats.record(&logged, &StoredTrade::Found(trade(7, 100, 5, 3)));
    assert_eq!(stats, ReconciliationStats { total: 1, missing: 0, mismatch: 0 });
    stats.record(&logged, &StoredTrade::Found(trade(7, 101, 5, 3)));
    stats.record(&logged, &StoredTrade::Found(trade(7, 100, 5, 4)));
    assert_eq!(stats, ReconciliationStats { total: 3, missing: 0, mismatch: 2 });
    stats.record(&logged, &StoredTrade::Missing);
    stats.record(&logged, &StoredTrade::Unavailable);
    assert_eq!(stats, ReconciliationStats { total: 5, missing: 1, mismatch: 2 });
}

#[test]
fn other_fields_do_not_count_as_mismatch() {
    let mut stats = ReconciliationStats::default();
    let mut stored = trade(7, 100, 5, 3);
    stored.seller_user_id = 42;
    stored.match_seq = 99;
    stats.record(&trade(7, 100, 5, 3), &StoredTrade::Found(stored));
    assert_eq!(stats.mismatch, 0);
}
