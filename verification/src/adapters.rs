//! The two services a transfer moves funds between, as seen by the
//! coordinator. Both are placeholders that accept every operation at once
//! and report queries as still in flight.

use vstd::prelude::*;
use crate::transfer_types::OpResult;

verus! {

/// The funding wallet: withdrawals freeze funds, commit releases them,
/// rollback unfreezes them.
pub struct FundingAdapter {}

/// The trading engine: withdrawals debit directly, commit does nothing,
/// rollback credits back.
pub struct TradingAdapter {}

impl FundingAdapter {
    pub fn new() -> (res: FundingAdapter) {
        FundingAdapter {}
    }

    pub fn withdraw(&self, req_id: u128, user_id: u64, asset_id: u32, amount: u64) -> (res: OpResult)
        ensures
            res == OpResult::Success,
    {
        OpResult::Success
    }

    pub fn deposit(&self, req_id: u128, user_id: u64, asset_id: u32, amount: u64) -> (res: OpResult)
        ensures
            res == OpResult::Success,
    {
        OpResult::Success
    }

    pub fn commit(&self, req_id: u128) -> (res: OpResult)
        ensures
            res == OpResult::Success,
    {
        OpResult::Success
    }

    pub fn rollback(&self, req_id: u128) -> (res: OpResult)
        ensures
            res == OpResult::Success,
    {
        OpResult::Success
    }

    pub fn query(&self, req_id: u128) -> (res: OpResult)
        ensures
            res == OpResult::Pending,
    {
        OpResult::Pending
    }

    pub fn name(&self) -> (res: &'static str)
        ensures
            res@ == "funding"@,
    {
        "funding"
    }
}

impl Default for FundingAdapter {
    fn default() -> (res: FundingAdapter) {
        FundingAdapter::new()
    }
}

impl TradingAdapter {
    pub fn new() -> (res: TradingAdapter) {
        TradingAdapter {}
    }

    pub fn withdraw(&self, req_id: u128, user_id: u64, asset_id: u32, amount: u64) -> (res: OpResult)
        ensures
            res == OpResult::Success,
    {
        OpResult::Success
    }

    pub fn deposit(&self, req_id: u128, user_id: u64, asset_id: u32, amount: u64) -> (res: OpResult)
        ensures
            res == OpResult::Success,
    {
        OpResult::Success
    }

    pub fn commit(&self, req_id: u128) -> (res: OpResult)
        ensures
            res == OpResult::Success,
    {
        OpResult::Success
    }

    pub fn rollback(&self, req_id: u128) -> (res: OpResult)
        ensures
            res == OpResult::Success,
    {
        OpResult::Success
    }

    pub fn query(&self, req_id: u128) -> (res: OpResult)
        ensures
            res == OpResult::Pending,
    {
        OpResult::Pending
    }

    pub fn name(&self) -> (res: &'static str)
        ensures
            res@ == "trading"@,
    {
        "trading"
    }
}

impl Default for TradingAdapter {
    fn default() -> (res: TradingAdapter) {
        TradingAdapter::new()
    }
}

/// A service funds can move in and out of. Every operation is keyed by
/// the transfer's request id, so that repeating it repeats its outcome.
pub trait ServiceAdapter {
    /// Takes funds from the user (freezing them where the service can).
    fn withdraw(&self, req_id: u128, user_id: u64, asset_id: u32, amount: u64) -> OpResult;

    /// Gives funds to the user.
    fn deposit(&self, req_id: u128, user_id: u64, asset_id: u32, amount: u64) -> OpResult;

    /// Finalizes a withdrawal.
    fn commit(&self, req_id: u128) -> OpResult;

    /// Undoes a withdrawal.
    fn rollback(&self, req_id: u128) -> OpResult;

    /// Where an operation stands.
    fn query(&self, req_id: u128) -> OpResult;

    /// The service's name.
    fn name(&self) -> &str;
}

impl ServiceAdapter for FundingAdapter {
    fn withdraw(&self, req_id: u128, user_id: u64, asset_id: u32, amount: u64) -> (res: OpResult)
        ensures
            res == OpResult::Success,
    {
        FundingAdapter::withdraw(self, req_id, user_id, asset_id, amount)
    }

    fn deposit(&self, req_id: u128, user_id: u64, asset_id: u32, amount: u64) -> (res: OpResult)
        ensures
            res == OpResult::Success,
    {
        FundingAdapter::deposit(self, req_id, user_id, asset_id, amount)
    }

    fn commit(&self, req_id: u128) -> (res: OpResult)
        ensures
            res == OpResult::Success,
    {
        FundingAdapter::commit(self, req_id)
    }

    fn rollback(&self, req_id: u128) -> (res: OpResult)
        ensures
            res == OpResult::Success,
    {
        FundingAdapter::rollback(self, req_id)
    }

    fn query(&self, req_id: u128) -> (res: OpResult)
        ensures
            res == OpResult::Pending,
    {
        FundingAdapter::query(self, req_id)
    }

    fn name(&self) -> (res: &str)
        ensures
            res@ == "funding"@,
    {
        FundingAdapter::name(self)
    }
}

impl ServiceAdapter for TradingAdapter {
    fn withdraw(&self, req_id: u128, user_id: u64, asset_id: u32, amount: u64) -> (res: OpResult)
        ensures
            res == OpResult::Success,
    {
        TradingAdapter::withdraw(self, req_id, user_id, asset_id, amount)
    }

    fn deposit(&self, req_id: u128, user_id: u64, asset_id: u32, amount: u64) -> (res: OpResult)
        ensures
            res == OpResult::Success,
    {
        TradingAdapter::deposit(self, req_id, user_id, asset_id, amount)
    }

    fn commit(&self, req_id: u128) -> (res: OpResult)
        ensures
            res == OpResult::Success,
    {
        TradingAdapter::commit(self, req_id)
    }

    fn rollback(&self, req_id: u128) -> (res: OpResult)
        ensures
            res == OpResult::Success,
    {
        TradingAdapter::rollback(self, req_id)
    }

    fn query(&self, req_id: u128) -> (res: OpResult)
        ensures
            res == OpResult::Pending,
    {
        TradingAdapter::query(self, req_id)
    }

    fn name(&self) -> (res: &str)
        ensures
            res@ == "trading"@,
    {
        TradingAdapter::name(self)
    }
}

/// Settings of the transfer worker.
#[derive(Debug, Clone)]
pub struct WorkerConfig {
    /// How often stale transfers are looked for, in milliseconds.
    pub scan_interval_ms: u64,
    /// How long a transfer is processed synchronously, in milliseconds.
    pub process_timeout_ms: u64,
    /// Age after which a transfer counts as stale, in milliseconds.
    pub stale_after_ms: i64,
    /// Retries after which an alert is raised.
    pub alert_threshold: u32,
    /// Capacity of the transfer queue.
    pub queue_capacity: usize,
}

impl Default for WorkerConfig {
    fn default() -> (res: WorkerConfig)
        ensures
            res.scan_interval_ms == 5000,
            res.process_timeout_ms == 2000,
            res.stale_after_ms == 30000,
            res.alert_threshold == 10,
            res.queue_capacity == 10000,
    {
        WorkerConfig {
            scan_interval_ms: 5000,
            process_timeout_ms: 2000,
            stale_after_ms: 30000,
            alert_threshold: 10,
            queue_capacity: 10000,
        }
    }
}

} // verus!
