//! Error kinds of internal transfers, with their API codes and messages.

use vstd::prelude::*;
use crate::text::{owned, u64_text, i64_text, u128_text, nat_text, int_text};

verus! {

/// Errors of an internal transfer.
#[derive(Debug, Clone)]
pub enum TransferError {
    // validation
    InvalidAmount(String),
    InvalidAsset(String),
    AssetMismatch { from: String, to: String },
    SameAccount,
    InvalidPrecision { value: String, expected: u32 },
    AmountTooSmall { amount: i64, minimum: i64 },
    // permission
    PermissionDenied { user_id: u64, reason: String },
    // balance
    InsufficientBalance { available: i64, required: i64, asset: String },
    // ledger service
    TbConnectionError(String),
    TbOperationFailed { operation: String, reason: String },
    TbTransferNotFound(u128),
    // database
    DbConnectionError(String),
    DbQueryFailed(String),
    DbRecordNotFound(i64),
    DbDuplicateKey(i64),
    // state
    InvalidStateTransition { from: String, to: String },
    TransferAlreadyCompleted(i64),
    TransferAlreadyFailed(i64),
    // system
    SystemOverloaded,
    ServiceUnavailable(String),
    Timeout(String),
    // anything else
    Unknown(String),
}

/// The API error code of an error.
pub open spec fn spec_error_code(e: TransferError) -> Seq<char> {
    match e {
        TransferError::InvalidAmount(_) => "INVALID_AMOUNT"@,
        TransferError::InvalidAsset(_) => "INVALID_ASSET"@,
        TransferError::AssetMismatch { .. } => "ASSET_MISMATCH"@,
        TransferError::SameAccount => "SAME_ACCOUNT"@,
        TransferError::InvalidPrecision { .. } => "INVALID_PRECISION"@,
        TransferError::AmountTooSmall { .. } => "AMOUNT_TOO_SMALL"@,
        TransferError::PermissionDenied { .. } => "PERMISSION_DENIED"@,
        TransferError::InsufficientBalance { .. } => "INSUFFICIENT_BALANCE"@,
        TransferError::TbConnectionError(_) => "TB_CONNECTION_ERROR"@,
        TransferError::TbOperationFailed { .. } => "TB_OPERATION_FAILED"@,
        TransferError::TbTransferNotFound(_) => "TB_TRANSFER_NOT_FOUND"@,
        TransferError::DbConnectionError(_) => "DB_CONNECTION_ERROR"@,
        TransferError::DbQueryFailed(_) => "DB_QUERY_FAILED"@,
        TransferError::DbRecordNotFound(_) => "TRANSFER_NOT_FOUND"@,
        TransferError::DbDuplicateKey(_) => "DUPLICATE_TRANSFER"@,
        TransferError::InvalidStateTransition { .. } => "INVALID_STATE_TRANSITION"@,
        TransferError::TransferAlreadyCompleted(_) => "TRANSFER_COMPLETED"@,
        TransferError::TransferAlreadyFailed(_) => "TRANSFER_FAILED"@,
        TransferError::SystemOverloaded => "SYSTEM_OVERLOADED"@,
        TransferError::ServiceUnavailable(_) => "SERVICE_UNAVAILABLE"@,
        TransferError::Timeout(_) => "TIMEOUT"@,
        TransferError::Unknown(_) => "UNKNOWN_ERROR"@,
    }
}

/// Errors worth retrying: connection problems, overload, unavailability, timeouts.
pub open spec fn spec_is_retryable(e: TransferError) -> bool {
    e is TbConnectionError || e is DbConnectionError || e is SystemOverloaded
        || e is ServiceUnavailable || e is Timeout
}

/// Errors caused by the user's request.
pub open spec fn spec_is_user_error(e: TransferError) -> bool {
    e is InvalidAmount || e is InvalidAsset || e is AssetMismatch || e is SameAccount
        || e is InvalidPrecision || e is AmountTooSmall || e is InsufficientBalance
}

/// The human-readable message of an error.
pub open spec fn spec_error_message(e: TransferError) -> Seq<char> {
    match e {
        TransferError::InvalidAmount(m) => "Invalid amount: "@ + m@,
        TransferError::InvalidAsset(a) => "Invalid asset: "@ + a@,
        TransferError::AssetMismatch { from, to } => "Asset mismatch: from "@ + from@ + " to "@ + to@,
        TransferError::SameAccount => "Cannot transfer to same account"@,
        TransferError::InvalidPrecision { value, expected } =>
            "Invalid precision for "@ + value@ + ", expected "@ + nat_text(expected as nat) + " decimals"@,
        TransferError::AmountTooSmall { amount, minimum } =>
            "Amount "@ + int_text(amount as int) + " too small, minimum is "@ + int_text(minimum as int),
        TransferError::PermissionDenied { user_id, reason } =>
            "Permission denied for user "@ + nat_text(user_id as nat) + ": "@ + reason@,
        TransferError::InsufficientBalance { available, required, asset } =>
            "Insufficient balance: have "@ + int_text(available as int) + ", need "@ + int_text(required as int) + " "@ + asset@,
        TransferError::TbConnectionError(m) => "TigerBeetle connection error: "@ + m@,
        TransferError::TbOperationFailed { operation, reason } =>
            "TigerBeetle "@ + operation@ + " failed: "@ + reason@,
        TransferError::TbTransferNotFound(id) => "Transfer "@ + nat_text(id as nat) + " not found in TigerBeetle"@,
        TransferError::DbConnectionError(m) => "Database connection error: "@ + m@,
        TransferError::DbQueryFailed(m) => "Database query failed: "@ + m@,
        TransferError::DbRecordNotFound(id) => "Transfer "@ + int_text(id as int) + " not found"@,
        TransferError::DbDuplicateKey(id) => "Transfer "@ + int_text(id as int) + " already exists"@,
        TransferError::InvalidStateTransition { from, to } =>
            "Invalid state transition: "@ + from@ + " -> "@ + to@,
        TransferError::TransferAlreadyCompleted(id) => "Transfer "@ + int_text(id as int) + " already completed"@,
        TransferError::TransferAlreadyFailed(id) => "Transfer "@ + int_text(id as int) + " already failed"@,
        TransferError::SystemOverloaded => "System overloaded, please try again later"@,
        TransferError::ServiceUnavailable(s) => "Service unavailable: "@ + s@,
        TransferError::Timeout(op) => "Operation timed out: "@ + op@,
        TransferError::Unknown(m) => "Unknown error: "@ + m@,
    }
}

impl TransferError {
    /// The error code reported by the API.
    pub fn error_code(&self) -> (res: &'static str)
        ensures
            res@ == spec_error_code(*self),
    {
        match self {
            TransferError::InvalidAmount(_) => "INVALID_AMOUNT",
            TransferError::InvalidAsset(_) => "INVALID_ASSET",
            TransferError::AssetMismatch { .. } => "ASSET_MISMATCH",
            TransferError::SameAccount => "SAME_ACCOUNT",
            TransferError::InvalidPrecision { .. } => "INVALID_PRECISION",
            TransferError::AmountTooSmall { .. } => "AMOUNT_TOO_SMALL",
            TransferError::PermissionDenied { .. } => "PERMISSION_DENIED",
            TransferError::InsufficientBalance { .. } => "INSUFFICIENT_BALANCE",
            TransferError::TbConnectionError(_) => "TB_CONNECTION_ERROR",
            TransferError::TbOperationFailed { .. } => "TB_OPERATION_FAILED",
            TransferError::TbTransferNotFound(_) => "TB_TRANSFER_NOT_FOUND",
            TransferError::DbConnectionError(_) => "DB_CONNECTION_ERROR",
            TransferError::DbQueryFailed(_) => "DB_QUERY_FAILED",
            TransferError::DbRecordNotFound(_) => "TRANSFER_NOT_FOUND",
            TransferError::DbDuplicateKey(_) => "DUPLICATE_TRANSFER",
            TransferError::InvalidStateTransition { .. } => "INVALID_STATE_TRANSITION",
            TransferError::TransferAlreadyCompleted(_) => "TRANSFER_COMPLETED",
            TransferError::TransferAlreadyFailed(_) => "TRANSFER_FAILED",
            TransferError::SystemOverloaded => "SYSTEM_OVERLOADED",
            TransferError::ServiceUnavailable(_) => "SERVICE_UNAVAILABLE",
            TransferError::Timeout(_) => "TIMEOUT",
            TransferError::Unknown(_) => "UNKNOWN_ERROR",
        }
    }

    /// Whether the operation may succeed if retried.
    pub fn is_retryable(&self) -> (res: bool)
        ensures
            res == spec_is_retryable(*self),
    {
        matches!(
            self,
            TransferError::TbConnectionError(_) | TransferError::DbConnectionError(_)
                | TransferError::SystemOverloaded | TransferError::ServiceUnavailable(_)
                | TransferError::Timeout(_)
        )
    }

    /// Whether the error is caused by the user's request.
    pub fn is_user_error(&self) -> (res: bool)
        ensures
            res == spec_is_user_error(*self),
    {
        matches!(
            self,
            TransferError::InvalidAmount(_) | TransferError::InvalidAsset(_)
                | TransferError::AssetMismatch { .. } | TransferError::SameAccount
                | TransferError::InvalidPrecision { .. } | TransferError::AmountTooSmall { .. }
                | TransferError::InsufficientBalance { .. }
        )
    }

    /// The human-readable message of the error.
    pub fn message(&self) -> (res: String)
        ensures
            res@ == spec_error_message(*self),
    {
        match self {
            TransferError::InvalidAmount(m) => owned("Invalid amount: ").concat(m.as_str()),
            TransferError::InvalidAsset(a) => owned("Invalid asset: ").concat(a.as_str()),
            TransferError::AssetMismatch { from, to } =>
                owned("Asset mismatch: from ").concat(from.as_str()).concat(" to ").concat(to.as_str()),
            TransferError::SameAccount => owned("Cannot transfer to same account"),
            TransferError::InvalidPrecision { value, expected } =>
                owned("Invalid precision for ").concat(value.as_str()).concat(", expected ")
                    .concat(u64_text(*expected as u64).as_str()).concat(" decimals"),
            TransferError::AmountTooSmall { amount, minimum } =>
                owned("Amount ").concat(i64_text(*amount).as_str()).concat(" too small, minimum is ")
                    .concat(i64_text(*minimum).as_str()),
            TransferError::PermissionDenied { user_id, reason } =>
                owned("Permission denied for user ").concat(u64_text(*user_id).as_str()).concat(": ")
                    .concat(reason.as_str()),
            TransferError::InsufficientBalance { available, required, asset } =>
                owned("Insufficient balance: have ").concat(i64_text(*available).as_str()).concat(", need ")
                    .concat(i64_text(*required).as_str()).concat(" ").concat(asset.as_str()),
            TransferError::TbConnectionError(m) => owned("TigerBeetle connection error: ").concat(m.as_str()),
            TransferError::TbOperationFailed { operation, reason } =>
                owned("TigerBeetle ").concat(operation.as_str()).concat(" failed: ").concat(reason.as_str()),
            TransferError::TbTransferNotFound(id) =>
                owned("Transfer ").concat(u128_text(*id).as_str()).concat(" not found in TigerBeetle"),
            TransferError::DbConnectionError(m) => owned("Database connection error: ").concat(m.as_str()),
            TransferError::DbQueryFailed(m) => owned("Database query failed: ").concat(m.as_str()),
            TransferError::DbRecordNotFound(id) =>
                owned("Transfer ").concat(i64_text(*id).as_str()).concat(" not found"),
            TransferError::DbDuplicateKey(id) =>
                owned("Transfer ").concat(i64_text(*id).as_str()).concat(" already exists"),
            TransferError::InvalidStateTransition { from, to } =>
                owned("Invalid state transition: ").concat(from.as_str()).concat(" -> ").concat(to.as_str()),
            TransferError::TransferAlreadyCompleted(id) =>
                owned("Transfer ").concat(i64_text(*id).as_str()).concat(" already completed"),
            TransferError::TransferAlreadyFailed(id) =>
                owned("Transfer ").concat(i64_text(*id).as_str()).concat(" already failed"),
            TransferError::SystemOverloaded => owned("System overloaded, please try again later"),
            TransferError::ServiceUnavailable(s) => owned("Service unavailable: ").concat(s.as_str()),
            TransferError::Timeout(op) => owned("Operation timed out: ").concat(op.as_str()),
            TransferError::Unknown(m) => owned("Unknown error: ").concat(m.as_str()),
        }
    }
}

/// No error is both retryable and the user's fault.
pub proof fn lemma_retryable_errors_are_not_user_errors(e: TransferError)
    ensures
        !(spec_is_retryable(e) && spec_is_user_error(e)),
{
}

} // verus!
