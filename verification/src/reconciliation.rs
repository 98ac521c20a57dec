//! Reconciling logged trades against the trade store: the tally and the
//! rule that classifies each comparison.

use vstd::prelude::*;
use crate::ledger::MatchExecData;

verus! {

/// What the trade store answered for a logged trade's id.
#[derive(Debug, Clone, Copy)]
pub enum StoredTrade {
    Found(MatchExecData),
    Missing,
    /// The lookup itself failed; the trade is counted but not classified.
    Unavailable,
}

/// Counts of a reconciliation run.
#[derive(Debug, Clone, Copy, PartialEq, Eq, Structural)]
pub struct ReconciliationStats {
    pub total: u64,
    pub missing: u64,
    pub mismatch: u64,
}

/// Whether a stored trade agrees with the logged one on price, quantity and
/// buyer.
pub open spec fn trades_agree(stored: MatchExecData, logged: MatchExecData) -> bool {
    stored.price == logged.price && stored.quantity == logged.quantity
        && stored.buyer_user_id == logged.buyer_user_id
}

impl Default for ReconciliationStats {
    fn default() -> (res: ReconciliationStats)
        ensures
            res.total == 0 && res.missing == 0 && res.mismatch == 0,
    {
        ReconciliationStats { total: 0, missing: 0, mismatch: 0 }
    }
}

impl ReconciliationStats {
    /// No class counts more trades than were compared.
    pub open spec fn wf(&self) -> bool {
        self.missing <= self.total && self.mismatch <= self.total
    }

    /// Counts one logged trade and classifies it by the store's answer: a
    /// missing trade, or a stored trade that disagrees, is counted as such.
    pub fn record(&mut self, logged: &MatchExecData, stored: &StoredTrade)
        requires
            old(self).wf(),
            old(self).total < u64::MAX,
        ensures
            final(self).wf(),
            final(self).total == old(self).total + 1,
            final(self).missing == old(self).missing + (if stored is Missing { 1int } else { 0int }),
            final(self).mismatch == old(self).mismatch + (match *stored {
                StoredTrade::Found(t) => if trades_agree(t, *logged) { 0int } else { 1int },
                _ => 0int,
            }),
    {
        self.total = self.total + 1;
        match stored {
            StoredTrade::Found(t) => {
                if t.price != logged.price || t.quantity != logged.quantity
                    || t.buyer_user_id != logged.buyer_user_id {
                    self.mismatch = self.mismatch + 1;
                }
            },
            StoredTrade::Missing => {
                self.missing = self.missing + 1;
            },
            StoredTrade::Unavailable => {},
        }
    }
}

} // verus!
