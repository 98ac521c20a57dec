//! Requests that move funds into or out of the exchange.

use vstd::prelude::*;

verus! {

/// Where deposited funds come from.
#[derive(Debug, Clone)]
pub enum DepositSource {
    Blockchain { chain: String, required_confirmations: u32 },
    BankTransfer { reference: String },
    Internal { from_user_id: u64 },
}

/// Where withdrawn funds go.
#[derive(Debug, Clone)]
pub enum WithdrawDestination {
    Blockchain { chain: String, address: String },
    BankTransfer { account: String },
    Internal { to_user_id: u64 },
}

/// A deposit, a withdrawal, or the confirmation or rejection of one.
#[derive(Debug, Clone)]
pub enum BalanceRequest {
    Deposit {
        request_id: String,
        user_id: u64,
        asset_id: u32,
        amount: u64,
        source: DepositSource,
        external_tx_id: String,
        confirmations: u32,
    },
    Withdraw {
        request_id: String,
        user_id: u64,
        asset_id: u32,
        amount: u64,
        destination: WithdrawDestination,
        external_address: String,
    },
    WithdrawConfirm { request_id: String, external_tx_id: String },
    WithdrawReject { request_id: String, reason: String },
}

/// The request id of any request.
pub open spec fn request_id_of(r: BalanceRequest) -> Seq<char> {
    match r {
        BalanceRequest::Deposit { request_id, .. } => request_id@,
        BalanceRequest::Withdraw { request_id, .. } => request_id@,
        BalanceRequest::WithdrawConfirm { request_id, .. } => request_id@,
        BalanceRequest::WithdrawReject { request_id, .. } => request_id@,
    }
}

impl BalanceRequest {
    /// The request id.
    pub fn request_id(&self) -> (res: &str)
        ensures
            res@ == request_id_of(*self),
    {
        match self {
            BalanceRequest::Deposit { request_id, .. } => request_id.as_str(),
            BalanceRequest::Withdraw { request_id, .. } => request_id.as_str(),
            BalanceRequest::WithdrawConfirm { request_id, .. } => request_id.as_str(),
            BalanceRequest::WithdrawReject { request_id, .. } => request_id.as_str(),
        }
    }

    /// The user, for deposits and withdrawals; confirmations and rejections
    /// carry none.
    pub fn user_id(&self) -> (res: Option<u64>)
        ensures
            res == match *self {
                BalanceRequest::Deposit { user_id, .. } => Some(user_id),
                BalanceRequest::Withdraw { user_id, .. } => Some(user_id),
                _ => None::<u64>,
            },
    {
        match self {
            BalanceRequest::Deposit { user_id, .. } => Some(*user_id),
            BalanceRequest::Withdraw { user_id, .. } => Some(*user_id),
            _ => None,
        }
    }
}

} // verus!
