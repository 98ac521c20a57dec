//! Core types of the internal transfer system.

use vstd::prelude::*;
use crate::text::str_equals;
use crate::transfer_state::TransferState;

verus! {

/// The service on either side of a transfer.
#[derive(Debug, Clone, Copy, PartialEq, Eq, Structural)]
pub enum ServiceId {
    Funding,
    Trading,
}

/// Text name of a service.
pub open spec fn service_name(s: ServiceId) -> Seq<char> {
    match s {
        ServiceId::Funding => "funding"@,
        ServiceId::Trading => "trading"@,
    }
}

impl ServiceId {
    /// The service's text name.
    pub fn as_str(&self) -> (res: &'static str)
        ensures
            res@ == service_name(*self),
    {
        match self {
            ServiceId::Funding => "funding",
            ServiceId::Trading => "trading",
        }
    }

    /// Parses a service from its text name; `None` for any other text.
    pub fn from_str(s: &str) -> (res: Option<ServiceId>)
        ensures
            match res {
                Some(id) => service_name(id) == s@,
                None => forall|id: ServiceId| service_name(id) != s@,
            },
    {
        if str_equals(s, "funding") {
            Some(ServiceId::Funding)
        } else if str_equals(s, "trading") {
            Some(ServiceId::Trading)
        } else {
            None
        }
    }
}

/// Outcome of a call into a service.
#[derive(Debug, Clone, PartialEq)]
pub enum OpResult {
    /// The operation definitely succeeded.
    Success,
    /// The operation definitely failed (a business failure), with the reason.
    Failed(String),
    /// In flight or a technical error: the call must be retried.
    Pending,
}

/// A transfer as stored in the database.
#[derive(Debug, Clone)]
pub struct TransferRecord {
    /// Unique request identifier (the 128 bits of a UUID).
    pub req_id: u128,
    pub source: ServiceId,
    pub target: ServiceId,
    pub user_id: u64,
    pub asset_id: u32,
    /// Amount in the asset's smallest unit.
    pub amount: u64,
    pub state: TransferState,
    /// Creation time (ms).
    pub created_at: i64,
    /// Last update time (ms).
    pub updated_at: i64,
    pub error: Option<String>,
    pub retry_count: u32,
}

/// A request to create a transfer.
#[derive(Debug, Clone)]
pub struct TransferRequest {
    pub from: ServiceId,
    pub to: ServiceId,
    pub user_id: u64,
    pub asset_id: u32,
    /// Amount in the asset's smallest unit.
    pub amount: u64,
}

/// Answer to a transfer operation.
#[derive(Debug, Clone)]
pub struct TransferResponse {
    pub req_id: String,
    /// "committed", "pending", "failed" or "rolled_back".
    pub status: String,
    pub message: Option<String>,
}

} // verus!
