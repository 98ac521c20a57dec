use exchange_core::balance_manager::{internal_amount, AmountError, BalanceManager};
use exchange_core::symbol_manager::SymbolManager;

#[test]
fn client_amounts_become_asset_units() {
    let m = BalanceManager::new(SymbolManager::load_from_db());
    assert_eq!(m.to_internal_amount("BTC", 15, 1), Ok((1, 150_000_000)));
    assert_eq!(m.to_internal_amount("USDT", 1230, 3), Ok((2, 123_000_000)));
    assert_eq!(m.to_internal_amount("ETH", 0, 0), Ok((3, 0)));
}

#[test]
fn amounts_are_refused_with_the_reason() {
    let m = BalanceManager::new(SymbolManager::load_from_db());
    assert_eq!(m.to_internal_amount("DOGE", 1, 0), Err(AmountError::UnknownAsset("DOGE".to_string())));
    assert_eq!(m.to_internal_amount("BTC", 123456789, 9), Err(AmountError::TooPrecise { scale: 9, max: 8 }));
    // trailing zeros do not count as precision
    assert_eq!(m.to_internal_amount("BTC", 1234567890, 9), Ok((1, 123456789)));
    assert_eq!(m.to_internal_amount("BTC", -1, 0), Err(AmountError::OutOfRange));
    assert_eq!(m.to_internal_amount("BTC", 1_000_000_000_000, 0), Err(AmountError::OutOfRange));
}

#[test]
fn decimals_beyond_sixty_four_bits_are_refused() {
    assert_eq!(internal_amount(1, 0, 20), Err(AmountError::DecimalsTooLarge));
    assert_eq!(internal_amount(1, 0, 19), Ok(10_000_000_000_000_000_000));
    assert_eq!(internal_amount(-0, 3, 2), Ok(0));
}

#[test]
fn client_amounts_round_trip() {
    let mut sm = SymbolManager::load_from_db();
    sm.add_asset(9, "HUGE", 20);
    let m = BalanceManager::new(sm);
    assert_eq!(m.to_client_amount(1, 150_000_000), Some((150_000_000, 8)));
    assert_eq!(m.to_client_amount(42, 1), None);
    assert_eq!(m.to_client_amount(9, 1), None);
    for raw in [0u64, 1, 150_000_000, 123_456_789, u64::MAX] {
        let (mantissa, scale) = m.to_client_amount(1, raw).unwrap();
        assert_eq!(m.to_internal_amount("BTC", mantissa as i128, scale), Ok((1, raw)));
    }
}
