//! The simulated funding account behind transfers between the funding
//! wallet and the trading engine: one balance per asset.

use std::collections::HashMap;
use vstd::prelude::*;
use crate::balance::{Balance, BalanceError, BalanceOp, op_result, zero_balance};

verus! {

broadcast use vstd::std_specs::hash::group_hash_axioms;

/// Why a funding operation is refused.
#[derive(Debug, Clone, Copy, PartialEq, Eq, Structural)]
pub enum FundingError {
    /// The funding account holds no balance of this asset.
    AssetNotFound(u32),
    /// Locking was refused by the balance.
    LockFailed(BalanceError),
    /// Spending locked funds was refused by the balance.
    SpendFailed(BalanceError),
}

/// The starting funds of each listed asset.
pub open spec fn initial_funds() -> u64 {
    1_000_000_000_000_000u64
}

/// The funding account.
pub struct SimulatedFundingAccount {
    balances: HashMap<u32, Balance>,
}

impl SimulatedFundingAccount {
    /// Balances by asset.
    pub closed spec fn balances(&self) -> Map<u32, Balance> {
        self.balances@
    }

    /// Bitcoin, tether and ether (ids 1 to 3), each with large available funds.
    pub fn new() -> (res: SimulatedFundingAccount)
        ensures
            res.balances().dom() == set![1u32, 2u32, 3u32],
            forall|a: u32| #[trigger] res.balances().contains_key(a) ==> res.balances()[a]
                == (Balance { avail: initial_funds(), frozen: 0, version: 0 }),
    {
        let mut balances: HashMap<u32, Balance> = HashMap::new();
        balances.insert(1, Balance { avail: 1_000_000_000_000_000, frozen: 0, version: 0 });
        balances.insert(2, Balance { avail: 1_000_000_000_000_000, frozen: 0, version: 0 });
        balances.insert(3, Balance { avail: 1_000_000_000_000_000, frozen: 0, version: 0 });
        assert(balances@.dom() =~= set![1u32, 2u32, 3u32]);
        SimulatedFundingAccount { balances }
    }

    /// Locks funds of an asset for a transfer into trading.
    pub fn lock(&mut self, asset_id: u32, amount: u64) -> (res: Result<(), FundingError>)
        ensures
            !old(self).balances().contains_key(asset_id) ==> res == Err::<(), FundingError>(
                FundingError::AssetNotFound(asset_id)) && final(self).balances() == old(self).balances(),
            old(self).balances().contains_key(asset_id) ==> match op_result(old(self).balances()[asset_id], BalanceOp::Lock(amount)) {
                Ok(nb) => res is Ok && final(self).balances() == old(self).balances().insert(asset_id, nb),
                Err(e) => res == Err::<(), FundingError>(FundingError::LockFailed(e))
                    && final(self).balances() == old(self).balances(),
            },
    {
        let mut b = match self.balances.get(&asset_id) {
            Some(b) => *b,
            None => return Err(FundingError::AssetNotFound(asset_id)),
        };
        match b.frozen(amount) {
            Ok(()) => {
                self.balances.insert(asset_id, b);
                Ok(())
            },
            Err(e) => Err(FundingError::LockFailed(e)),
        }
    }

    /// Spends locked funds once a transfer into trading has settled.
    pub fn spend(&mut self, asset_id: u32, amount: u64) -> (res: Result<(), FundingError>)
        ensures
            !old(self).balances().contains_key(asset_id) ==> res == Err::<(), FundingError>(
                FundingError::AssetNotFound(asset_id)) && final(self).balances() == old(self).balances(),
            old(self).balances().contains_key(asset_id) ==> match op_result(old(self).balances()[asset_id], BalanceOp::SpendFrozen(amount)) {
                Ok(nb) => res is Ok && final(self).balances() == old(self).balances().insert(asset_id, nb),
                Err(e) => res == Err::<(), FundingError>(FundingError::SpendFailed(e))
                    && final(self).balances() == old(self).balances(),
            },
    {
        let mut b = match self.balances.get(&asset_id) {
            Some(b) => *b,
            None => return Err(FundingError::AssetNotFound(asset_id)),
        };
        match b.spend_frozen(amount) {
            Ok(()) => {
                self.balances.insert(asset_id, b);
                Ok(())
            },
            Err(e) => Err(FundingError::SpendFailed(e)),
        }
    }

    /// Credits funds coming back from trading; an asset without a balance
    /// gets one, and a deposit that would overflow is dropped.
    pub fn credit(&mut self, asset_id: u32, amount: u64)
        ensures
            ({
                let b0 = if old(self).balances().contains_key(asset_id) {
                    old(self).balances()[asset_id]
                } else {
                    zero_balance()
                };
                final(self).balances() == old(self).balances().insert(asset_id,
                    match op_result(b0, BalanceOp::Deposit(amount)) {
                        Ok(nb) => nb,
                        Err(_) => b0,
                    })
            }),
    {
        let mut b = match self.balances.get(&asset_id) {
            Some(b) => *b,
            None => Balance::default(),
        };
        let _ = b.deposit(amount);
        self.balances.insert(asset_id, b);
    }
}

} // verus!
