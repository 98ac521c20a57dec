//! A ledger that keeps no balances, for an engine whose balances are kept
//! elsewhere: every command is accepted, every balance is unlimited.

use vstd::prelude::*;
use crate::ledger::{Ledger, LedgerCommand, LedgerError};

verus! {

/// The ledger that keeps nothing.
pub struct NullLedger;

impl NullLedger {
    pub fn new() -> (res: NullLedger) {
        NullLedger
    }

    /// Accepts any command and changes nothing.
    pub fn apply(&mut self, cmd: &LedgerCommand) -> (res: Result<(), LedgerError>)
        ensures
            res is Ok,
    {
        Ok(())
    }

    /// Every balance reads as unlimited.
    pub fn get_balance(&self, user_id: u64, asset_id: u32) -> (res: u64)
        ensures
            res == u64::MAX,
    {
        u64::MAX
    }

    /// No funds are ever frozen.
    pub fn get_frozen(&self, user_id: u64, asset_id: u32) -> (res: u64)
        ensures
            res == 0,
    {
        0
    }

    /// Versions are not tracked.
    pub fn get_balance_version(&self, user_id: u64, asset_id: u32) -> (res: u64)
        ensures
            res == 0,
    {
        0
    }
}

impl Ledger for NullLedger {
    /// Always.
    open spec fn can_apply(&self) -> bool {
        true
    }

    fn get_balance(&self, user_id: u64, asset_id: u32) -> (res: u64)
        ensures
            res == u64::MAX,
    {
        NullLedger::get_balance(self, user_id, asset_id)
    }

    fn apply(&mut self, cmd: &LedgerCommand) -> (res: Result<(), LedgerError>)
        ensures
            res is Ok,
    {
        NullLedger::apply(self, cmd)
    }
}

} // verus!
