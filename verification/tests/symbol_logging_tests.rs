use exchange_core::logging::{
    batch_trace_id_at, flow_trace_id_at, gen_batch_trace_id, gen_flow_trace_id, gen_request_trace_id,
    request_trace_id_at,
};
use exchange_core::symbol_utils::{get_asset_name, get_symbol_from_assets, SymbolError, BTC, ETH, USDT};

#[test]
fn test_get_symbol_from_assets() {
    assert_eq!(get_symbol_from_assets(BTC, USDT).unwrap(), "btc_usdt");
    assert_eq!(get_symbol_from_assets(ETH, USDT).unwrap(), "eth_usdt");
    assert_eq!(get_symbol_from_assets(BTC, ETH).unwrap(), "btc_eth");
}

#[test]
fn test_get_asset_name() {
    assert_eq!(get_asset_name(BTC).unwrap(), "BTC");
    assert_eq!(get_asset_name(USDT).unwrap(), "USDT");
    assert_eq!(get_asset_name(ETH).unwrap(), "ETH");
}

#[test]
fn unknown_assets_are_refused() {
    assert_eq!(get_symbol_from_assets(USDT, BTC), Err(SymbolError::UnknownBaseAsset(USDT)));
    assert_eq!(get_symbol_from_assets(BTC, 9), Err(SymbolError::UnknownQuoteAsset(9)));
    // the base is checked first
    assert_eq!(get_symbol_from_assets(7, 9), Err(SymbolError::UnknownBaseAsset(7)));
    assert_eq!(get_asset_name(4), Err(SymbolError::UnknownAsset(4)));
    assert_eq!(SymbolError::UnknownBaseAsset(2).message(), "Unknown base asset: 2");
    assert_eq!(SymbolError::UnknownAsset(42).message(), "Unknown asset: 42");
}

#[test]
fn test_trace_id_format() {
    let batch_id = gen_batch_trace_id(12345);
    assert!(batch_id.starts_with("batch_12345_"));

    let flow_id = gen_flow_trace_id("reg", "abc123");
    assert!(flow_id.starts_with("flow_reg_abc123_"));

    let req_id = gen_request_trace_id(98765);
    assert!(req_id.starts_with("req_98765_"));
}

#[test]
fn trace_ids_end_with_the_clock_reading() {
    assert_eq!(batch_trace_id_at(12345, 1700000000000), "batch_12345_1700000000000");
    assert_eq!(flow_trace_id_at("reg", "abc123", 7), "flow_reg_abc123_7");
    assert_eq!(request_trace_id_at(0, 0), "req_0_0");
}
