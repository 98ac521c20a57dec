use exchange_core::symbol_manager::SymbolManager;

#[test]
fn the_initial_listing() {
    let m = SymbolManager::load_from_db();
    assert_eq!(m.get_id("BTC_USDT"), Some(0));
    assert_eq!(m.get_id("ETH_USDT"), Some(1));
    assert_eq!(m.get_id("DOGE_USDT"), None);
    assert_eq!(m.get_symbol(1).map(|s| s.as_str()), Some("ETH_USDT"));
    let info = m.get_symbol_info("BTC_USDT").unwrap();
    assert_eq!((info.id, info.price_decimal, info.quantity_decimal), (0, 2, 8));
    assert_eq!(m.get_symbol_info_by_id(1).unwrap().symbol, "ETH_USDT");
    assert_eq!(m.get_asset_decimal(2), Some(8));
    assert_eq!(m.get_asset_decimal(4), None);
}

#[test]
fn listing_a_name_again_moves_it() {
    let mut m = SymbolManager::default();
    m.insert("BTC_USDT", 5);
    assert_eq!(m.get_symbol_info_by_id(5).unwrap().price_decimal, 2);
    m.insert_with_decimals("BTC_USDT", 6, 3, 4);
    assert_eq!(m.get_id("BTC_USDT"), Some(6));
    assert_eq!(m.symbol_to_id.len(), 1);
    assert_eq!(m.get_symbol_info("BTC_USDT").unwrap().quantity_decimal, 4);
    m.add_asset(9, "SOL", 9);
    assert_eq!(m.get_asset_decimal(9), Some(9));
}
