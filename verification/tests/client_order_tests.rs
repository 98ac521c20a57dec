use exchange_core::client_order::{
    validate_alphanumeric, validate_price_decimal, validate_quantity_decimal, validate_symbol_format, ClientOrder,
    ClientOrderError, DecimalValue, OrderViolation,
};
use exchange_core::order_utils::{OrderType, Side};
use exchange_core::symbol_manager::SymbolManager;

fn dec(mantissa: i128, scale: u32) -> DecimalValue {
    DecimalValue { mantissa, scale }
}

fn order(cid: Option<&str>, symbol: &str, price: DecimalValue, quantity: DecimalValue) -> Result<ClientOrder, ClientOrderError> {
    ClientOrder::new(cid.map(|c| c.to_string()), symbol.to_string(), Side::Buy, price, quantity, OrderType::Limit)
}

fn violations(r: Result<ClientOrder, ClientOrderError>) -> Vec<OrderViolation> {
    match r {
        Err(ClientOrderError::Invalid(vs)) => vs,
        Err(ClientOrderError::UnknownSymbol(s)) => panic!("unexpected unknown symbol {}", s),
        Ok(_) => Vec::new(),
    }
}

#[test]
fn a_well_formed_order_is_accepted() {
    let o = order(Some("abcdefghij0123456789"), "BTC_USDT", dec(5000025, 2), dec(1, 1)).unwrap();
    assert_eq!(o.symbol, "BTC_USDT");
    assert_eq!(o.price, dec(5000025, 2));
    assert!(o.validate_order().is_ok());
    assert!(order(None, "ETH_USDT", dec(1, 0), dec(3, 0)).is_ok());
}

#[test]
fn cid_length_and_characters() {
    assert_eq!(violations(order(Some("short"), "BTC_USDT", dec(1, 0), dec(1, 0))), vec![OrderViolation::CidLength]);
    assert_eq!(
        violations(order(Some("abcdefghij-123456789"), "BTC_USDT", dec(1, 0), dec(1, 0))),
        vec![OrderViolation::CidNotAlphanumeric]
    );
    assert_eq!(
        violations(order(Some("a-b"), "BTC_USDT", dec(1, 0), dec(1, 0))),
        vec![OrderViolation::CidLength, OrderViolation::CidNotAlphanumeric]
    );
    assert!(order(Some(&"a".repeat(32)), "BTC_USDT", dec(1, 0), dec(1, 0)).is_ok());
    assert_eq!(violations(order(Some(&"a".repeat(33)), "BTC_USDT", dec(1, 0), dec(1, 0))), vec![OrderViolation::CidLength]);
}

#[test]
fn symbol_format_rules_in_order() {
    assert_eq!(validate_symbol_format("BTC_USDT"), Ok(()));
    assert_eq!(validate_symbol_format("BTC-USDT"), Err(OrderViolation::SymbolChars));
    assert_eq!(validate_symbol_format("btc_usdt"), Err(OrderViolation::SymbolCase));
    assert_eq!(validate_symbol_format("BTCUSDT"), Err(OrderViolation::SymbolNoUnderscore));
    assert_eq!(validate_symbol_format("_BTCUSDT"), Err(OrderViolation::SymbolUnderscoreAtEdge));
    assert_eq!(validate_symbol_format("BTCUSDT_"), Err(OrderViolation::SymbolUnderscoreAtEdge));
    assert_eq!(validate_symbol_format("BTC__USDT"), Err(OrderViolation::SymbolDoubleUnderscore));
    assert_eq!(validate_symbol_format("A_B_C"), Ok(()));
}

#[test]
fn alphanumeric_check() {
    assert_eq!(validate_alphanumeric("abc123XYZ"), Ok(()));
    assert_eq!(validate_alphanumeric(""), Ok(()));
    assert_eq!(validate_alphanumeric("abc 123"), Err(OrderViolation::CidNotAlphanumeric));
}

#[test]
fn every_broken_rule_is_reported() {
    assert_eq!(
        violations(order(None, "x", dec(0, 0), dec(-1, 2))),
        vec![
            OrderViolation::SymbolLength,
            OrderViolation::SymbolCase,
            OrderViolation::PriceNotPositive,
            OrderViolation::QuantityNotPositive
        ]
    );
    assert_eq!(
        violations(order(None, "BTC_USDT_BTC_USDT_BTC_USDT", dec(1, 0), dec(1, 0))),
        vec![OrderViolation::SymbolLength]
    );
}

#[test]
fn symbol_must_be_listed() {
    let m = SymbolManager::load_from_db();
    let listed = order(None, "BTC_USDT", dec(1, 0), dec(1, 0)).unwrap();
    assert!(listed.validate_with_symbol_manager(&m).is_ok());
    let unlisted = order(None, "DOGE_USDT", dec(1, 0), dec(1, 0)).unwrap();
    match unlisted.validate_with_symbol_manager(&m) {
        Err(ClientOrderError::UnknownSymbol(s)) => assert_eq!(s, "DOGE_USDT"),
        _ => panic!("expected an unknown symbol"),
    }
}

#[test]
fn price_and_quantity_must_be_positive() {
    assert_eq!(validate_price_decimal(dec(1, 8)), Ok(()));
    assert_eq!(validate_price_decimal(dec(0, 2)), Err(OrderViolation::PriceNotPositive));
    assert_eq!(validate_quantity_decimal(dec(-5, 0)), Err(OrderViolation::QuantityNotPositive));
    assert_eq!(validate_quantity_decimal(dec(5, 0)), Ok(()));
}
