use exchange_core::internal_transfer_errors::TransferError;
use exchange_core::internal_transfer_fsm::{InternalTransferEvent, InternalTransferState, InternalTransferStateMachine};
use exchange_core::internal_transfer_types::{tb_account_id, AccountType, TransferRequestRecord, TransferStatus};

#[test]
fn test_error_codes() {
    let err = TransferError::InsufficientBalance {
        available: 100,
        required: 200,
        asset: "USDT".to_string(),
    };
    assert_eq!(err.error_code(), "INSUFFICIENT_BALANCE");
    assert!(!err.is_retryable());
    assert!(err.is_user_error());

    let err2 = TransferError::TbConnectionError("timeout".to_string());
    assert_eq!(err2.error_code(), "TB_CONNECTION_ERROR");
    assert!(err2.is_retryable());
    assert!(!err2.is_user_error());
}

#[test]
fn test_error_display() {
    let err = TransferError::AssetMismatch {
        from: "BTC".to_string(),
        to: "USDT".to_string(),
    };
    assert_eq!(err.message(), "Asset mismatch: from BTC to USDT");
}

#[test]
fn error_messages_print_numbers_in_decimal() {
    let err = TransferError::AmountTooSmall { amount: -5, minimum: 100 };
    assert_eq!(err.message(), "Amount -5 too small, minimum is 100");
    let err = TransferError::TbTransferNotFound(340282366920938463463374607431768211455);
    assert_eq!(
        err.message(),
        "Transfer 340282366920938463463374607431768211455 not found in TigerBeetle"
    );
}

#[test]
fn test_status() {
    assert_eq!(TransferStatus::Pending.as_str(), "pending");
    assert!(TransferStatus::Success.is_terminal());
}

fn sample_record() -> TransferRequestRecord {
    TransferRequestRecord {
        request_id: 1234567890,
        from_account_type: "funding".to_string(),
        from_user_id: None,
        from_asset_id: 2,
        to_account_type: "spot".to_string(),
        to_user_id: Some(3001),
        to_asset_id: 2,
        amount: 100_000_000,
        status: "requesting".to_string(),
        created_at: 1702345678000,
        updated_at: 1702345678000,
        pending_transfer_id: None,
        posted_transfer_id: None,
        processor: None,
        error_message: None,
    }
}

#[test]
fn test_record_creation() {
    let record = sample_record();
    assert_eq!(record.request_id, 1234567890);
    assert_eq!(record.from_account_type, "funding");
    assert_eq!(record.status, "requesting");
}

#[test]
fn test_account_id_generation() {
    let account = tb_account_id(1001, 1);
    assert!(account > 0);

    let account2 = tb_account_id(1001, 2);
    assert_ne!(account, account2);
}

#[test]
fn account_id_puts_user_in_high_bits() {
    assert_eq!(tb_account_id(3001, 2), (3001u128 << 64) | 2);
    let funding = AccountType::Funding { asset: "usdt".to_string(), user_id: 0 };
    assert_eq!(funding.to_tb_account_id(2), 2);
    assert_eq!(funding.asset(), "USDT");
    let spot = AccountType::Spot { user_id: 3001, asset: "btc".to_string() };
    assert_eq!(spot.to_tb_account_id(1), (3001u128 << 64) | 1);
    assert_eq!(spot.user_id(), Some(3001));
}

#[test]
fn state_machine_happy_path_and_refusals() {
    let mut sm = InternalTransferStateMachine::new();
    assert_eq!(sm.state(), InternalTransferState::Requesting);
    assert_eq!(sm.consume(InternalTransferEvent::Submit), Ok(InternalTransferState::Requesting));
    assert_eq!(sm.consume(InternalTransferEvent::LockFunds), Ok(InternalTransferState::Processing));
    assert_eq!(sm.consume(InternalTransferEvent::Settle), Ok(InternalTransferState::Pending));
    assert!(sm.is_terminal());
    assert_eq!(sm.as_str(), "success");
    assert_eq!(
        sm.consume(InternalTransferEvent::Fail),
        Err("Cannot transition from terminal state Success with event Fail".to_string())
    );
    assert_eq!(sm.state(), InternalTransferState::Success);

    let mut sm = InternalTransferStateMachine::new();
    assert_eq!(
        sm.consume(InternalTransferEvent::Settle),
        Err("Invalid transition from Requesting with event Settle".to_string())
    );
    assert_eq!(sm.state(), InternalTransferState::Requesting);
}
