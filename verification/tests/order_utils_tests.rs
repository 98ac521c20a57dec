use exchange_core::api_response::ApiResponse;
use exchange_core::balance_requests::{BalanceRequest, DepositSource};
use exchange_core::funding_account::{FundingError, SimulatedFundingAccount};
use exchange_core::balance::BalanceError;
use exchange_core::order_utils::{u64_to_decimal_string, OrderError, OrderStatus, OrderType, Side};
use exchange_core::user_accounts::UserAccountManager;
use exchange_core::null_ledger::NullLedger;
use exchange_core::ledger::LedgerCommand;

#[test]
fn sides_and_kinds_round_trip_through_their_codes() {
    assert_eq!(Side::Buy.as_u8(), 1);
    assert_eq!(Side::from_u8(2), Some(Side::Sell));
    assert_eq!(Side::from_u8(0), None);
    assert_eq!(OrderType::Market.as_u8(), 2);
    assert_eq!(OrderType::from_u8(1), Some(OrderType::Limit));
    assert_eq!(OrderType::from_u8(3), None);
    assert_eq!(Side::from_str("Sell"), Ok(Side::Sell));
    assert_eq!(Side::from_str("sell"), Err("Unknown side: sell".to_string()));
    assert_eq!(OrderType::from_str("Limit"), Ok(OrderType::Limit));
    assert_eq!(OrderType::from_str("Stop"), Err("Unknown order type: Stop".to_string()));
    assert_eq!(Side::Buy.to_string(), "Buy");
    assert_eq!(OrderType::Market.to_string(), "Market");
}

#[test]
fn statuses_have_codes_and_unknown_codes_read_as_new() {
    assert_eq!(OrderStatus::Filled.code(), 4);
    assert_eq!(OrderStatus::Rejected("x".to_string()).code(), 6);
    assert!(matches!(OrderStatus::from_code(3, None), OrderStatus::PartiallyFilled));
    assert!(matches!(OrderStatus::from_code(6, None), OrderStatus::Rejected(r) if r.is_empty()));
    assert!(matches!(OrderStatus::from_code(6, Some("late".to_string())), OrderStatus::Rejected(r) if r == "late"));
    assert!(matches!(OrderStatus::from_code(0, None), OrderStatus::New));
    assert!(matches!(OrderStatus::from_code(200, None), OrderStatus::New));
}

#[test]
fn order_errors_have_messages() {
    let e = OrderError::InsufficientFunds { user_id: 7, asset_id: 2, required: 100, available: 5 };
    assert_eq!(e.message(), "Insufficient funds: User 7 needs 100 of Asset 2, has 5");
    assert_eq!(OrderError::SymbolMismatch { expected: 1, actual: 2 }.message(), "Symbol mismatch: expected '1', got '2'");
    assert_eq!(OrderError::from("boom".to_string()).message(), "Error: boom");
}

#[test]
fn decimal_text_places_the_point() {
    assert_eq!(u64_to_decimal_string(12345, 2), "123.45");
    assert_eq!(u64_to_decimal_string(5, 3), "0.005");
    assert_eq!(u64_to_decimal_string(7, 0), "7");
    assert_eq!(u64_to_decimal_string(0, 0), "0");
    assert_eq!(u64_to_decimal_string(0, 2), "0.00");
    assert_eq!(u64_to_decimal_string(100, 2), "1.00");
    assert_eq!(u64_to_decimal_string(123, 5), "0.00123");
    assert_eq!(u64_to_decimal_string(u64::MAX, 28), "0.0000000018446744073709551615");
    assert_eq!(u64_to_decimal_string(u64::MAX, 0), "18446744073709551615");
    for (m, s) in [(0u64, 0u32), (0, 3), (1, 1), (10, 1), (99, 2), (1_000_000, 6), (123_456_789, 4), (42, 28)] {
        assert_eq!(u64_to_decimal_string(m, s), rust_decimal::Decimal::from_i128_with_scale(m as i128, s).to_string());
    }
}

#[test]
fn api_responses() {
    let ok = ApiResponse::success(5u32);
    assert_eq!((ok.status, ok.msg.as_str(), ok.data), (0, "ok", 5));
    let err = ApiResponse::error(400, "bad".to_string(), ());
    assert_eq!((err.status, err.msg.as_str()), (400, "bad"));
}

#[test]
fn balance_requests_name_their_request_and_user() {
    let d = BalanceRequest::Deposit {
        request_id: "r1".to_string(),
        user_id: 9,
        asset_id: 1,
        amount: 5,
        source: DepositSource::Internal { from_user_id: 3 },
        external_tx_id: "tx".to_string(),
        confirmations: 0,
    };
    assert_eq!(d.request_id(), "r1");
    assert_eq!(d.user_id(), Some(9));
    let c = BalanceRequest::WithdrawConfirm { request_id: "r2".to_string(), external_tx_id: "tx".to_string() };
    assert_eq!(c.request_id(), "r2");
    assert_eq!(c.user_id(), None);
}

#[test]
fn funding_account_locks_spends_and_credits() {
    let mut f = SimulatedFundingAccount::new();
    f.lock(2, 100).unwrap();
    f.spend(2, 60).unwrap();
    assert_eq!(f.spend(2, 50), Err(FundingError::SpendFailed(BalanceError::InsufficientFrozen)));
    assert_eq!(f.lock(9, 1), Err(FundingError::AssetNotFound(9)));
    assert_eq!(f.lock(1, u64::MAX), Err(FundingError::LockFailed(BalanceError::InsufficientAvailable)));
    f.credit(9, 10);
    assert_eq!(f.lock(9, 10), Ok(()));
}

#[test]
fn simulated_users_and_null_ledger() {
    let m = UserAccountManager::new();
    for _ in 0..100 {
        let id = m.get_user_id();
        assert!((1000..2000).contains(&id));
    }
    let mut l = NullLedger::new();
    assert!(l.apply(&LedgerCommand::Deposit { user_id: 1, asset: 1, amount: 1 }).is_ok());
    assert_eq!(l.get_balance(1, 1), u64::MAX);
    assert_eq!(l.get_frozen(1, 1), 0);
    assert_eq!(l.get_balance_version(1, 1), 0);
}
