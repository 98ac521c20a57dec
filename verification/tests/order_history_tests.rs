use exchange_core::order_history::{aggregate_trades, order_history, settled_trade_of, sort_newest_first, OrderAgg, SettledTrade};
use exchange_core::settlement::SettledTradeRow;

fn trade(buy: u64, sell: u64, buyer: u64, seller: u64, price: u64, qty: u64, at: i64) -> SettledTrade {
    SettledTrade {
        buy_order_id: buy,
        sell_order_id: sell,
        buyer_user_id: buyer,
        seller_user_id: seller,
        price,
        quantity: qty,
        base_asset_id: 1,
        quote_asset_id: 2,
        settled_at: at,
    }
}

#[test]
fn fills_of_one_order_become_one_line() {
    let mut other_pair = trade(9, 8, 7, 6, 1, 1, 50);
    other_pair.base_asset_id = 3;
    let trades = vec![
        trade(10, 20, 7, 6, 50_000, 100, 1_000),
        trade(11, 10, 5, 7, 51_000, 1, 900),
        trade(10, 21, 7, 6, 50_500, 50, 1_200),
        other_pair,
        trade(30, 31, 7, 7, 49_000, 5, 1_100),
        trade(40, 41, 5, 6, 1, 1, 5_000),
    ];
    let aggs = aggregate_trades(&trades, 7, 1, 2);
    assert_eq!(
        aggs,
        vec![
            OrderAgg { order_id: 10, is_buy: true, price: 50_000, quantity: 151, time: 1_200 },
            OrderAgg { order_id: 30, is_buy: true, price: 49_000, quantity: 5, time: 1_100 },
            OrderAgg { order_id: 31, is_buy: false, price: 49_000, quantity: 5, time: 1_100 },
        ]
    );

    let sorted = sort_newest_first(&vec![
        OrderAgg { order_id: 1, is_buy: true, price: 1, quantity: 1, time: 5 },
        OrderAgg { order_id: 2, is_buy: true, price: 1, quantity: 1, time: 9 },
        OrderAgg { order_id: 3, is_buy: true, price: 1, quantity: 1, time: 5 },
    ]);
    assert_eq!(sorted.iter().map(|a| a.order_id).collect::<Vec<_>>(), vec![2, 1, 3]);

    let rows = order_history(&trades, 7, 1, 2, 2, 8);
    assert_eq!(rows.len(), 3);
    assert_eq!((rows[0].order_id, rows[0].side.as_str(), rows[0].time), (10, "BUY", 1_200));
    assert_eq!(rows[0].price, "500.00");
    assert_eq!(rows[0].quantity, "0.00000151");
    assert_eq!(rows[0].status, "FILLED");
    assert_eq!((rows[1].order_id, rows[1].side.as_str()), (30, "BUY"));
    assert_eq!((rows[2].order_id, rows[2].side.as_str()), (31, "SELL"));
    assert!(order_history(&trades, 99, 1, 2, 2, 8).is_empty());
}

#[test]
fn stored_rows_read_back_as_trades() {
    let row = SettledTradeRow {
        trade_date: 20240101,
        output_sequence: 1,
        trade_id: 9,
        match_seq: 3,
        buy_order_id: 10,
        sell_order_id: -1,
        buyer_user_id: 7,
        seller_user_id: 6,
        price: 50_000,
        quantity: 100,
        base_asset_id: 1,
        quote_asset_id: 2,
        buyer_refund: 0,
        seller_refund: 0,
        settled_at: 1_000,
        buyer_base_version: 1,
        buyer_quote_version: 1,
        seller_base_version: 1,
        seller_quote_version: 1,
        buyer_base_balance_after: 0,
        buyer_quote_balance_after: 0,
        seller_base_balance_after: 0,
        seller_quote_balance_after: 0,
    };
    let t = settled_trade_of(&row);
    assert_eq!(t, trade(10, u64::MAX, 7, 6, 50_000, 100, 1_000));
}
