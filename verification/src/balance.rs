//! Per-asset balances (available and frozen funds, with a version counter)
//! and user accounts that hold one balance per asset.

use vstd::prelude::*;

verus! {

pub type UserId = u64;
pub type AssetId = u32;

/// Funds of one user in one asset. `avail` can be spent or locked,
/// `frozen` is reserved for open orders or pending transfers, and
/// `version` counts the changes.
#[derive(Debug, Clone, Copy, PartialEq, Eq, Structural)]
pub struct Balance {
    pub avail: u64,
    pub frozen: u64,
    pub version: u64,
}

/// Why a balance operation is refused.
#[derive(Debug, Clone, Copy, PartialEq, Eq, Structural)]
pub enum BalanceError {
    /// The result would not fit in 64 bits.
    Overflow,
    /// Not enough available funds.
    InsufficientAvailable,
    /// Not enough frozen funds.
    InsufficientFrozen,
}

/// The empty balance.
pub open spec fn zero_balance() -> Balance {
    Balance { avail: 0, frozen: 0, version: 0 }
}

/// The version after one more change (wrapping at the top of the range).
pub open spec fn next_version(v: u64) -> u64 {
    if v == u64::MAX { 0 } else { (v + 1) as u64 }
}

/// Available plus frozen funds.
pub open spec fn total(b: Balance) -> int {
    b.avail + b.frozen
}

/// Kinds of single-balance operations.
#[derive(Debug, Clone, Copy, PartialEq, Eq, Structural)]
pub enum BalanceOp {
    /// Add to the available funds.
    Deposit(u64),
    /// Take from the available funds.
    Withdraw(u64),
    /// Move funds from available to frozen.
    Lock(u64),
    /// Move funds from frozen back to available.
    Unlock(u64),
    /// Take from the frozen funds (a settled trade or transfer).
    SpendFrozen(u64),
}

/// The result of an operation on a balance, or the reason it is refused.
pub open spec fn op_result(b: Balance, op: BalanceOp) -> Result<Balance, BalanceError> {
    match op {
        BalanceOp::Deposit(x) =>
            if b.avail + x > u64::MAX { Err(BalanceError::Overflow) }
            else { Ok(Balance { avail: (b.avail + x) as u64, frozen: b.frozen, version: next_version(b.version) }) },
        BalanceOp::Withdraw(x) =>
            if b.avail < x { Err(BalanceError::InsufficientAvailable) }
            else { Ok(Balance { avail: (b.avail - x) as u64, frozen: b.frozen, version: next_version(b.version) }) },
        BalanceOp::Lock(x) =>
            if b.avail < x { Err(BalanceError::InsufficientAvailable) }
            else if b.frozen + x > u64::MAX { Err(BalanceError::Overflow) }
            else { Ok(Balance { avail: (b.avail - x) as u64, frozen: (b.frozen + x) as u64, version: next_version(b.version) }) },
        BalanceOp::Unlock(x) =>
            if b.frozen < x { Err(BalanceError::InsufficientFrozen) }
            else if b.avail + x > u64::MAX { Err(BalanceError::Overflow) }
            else { Ok(Balance { avail: (b.avail + x) as u64, frozen: (b.frozen - x) as u64, version: next_version(b.version) }) },
        BalanceOp::SpendFrozen(x) =>
            if b.frozen < x { Err(BalanceError::InsufficientFrozen) }
            else { Ok(Balance { avail: b.avail, frozen: (b.frozen - x) as u64, version: next_version(b.version) }) },
    }
}

fn bump(v: u64) -> (res: u64)
    ensures
        res == next_version(v),
{
    if v == u64::MAX { 0 } else { v + 1 }
}

impl Default for Balance {
    fn default() -> (res: Self)
        ensures
            res == zero_balance(),
    {
        Balance { avail: 0, frozen: 0, version: 0 }
    }
}

impl Balance {
    /// Applies an operation; on refusal the balance is left as it was.
    pub fn apply_op(&mut self, op: BalanceOp) -> (res: Result<(), BalanceError>)
        ensures
            match op_result(*old(self), op) {
                Ok(nb) => res is Ok && *final(self) == nb,
                Err(e) => res == Err::<(), BalanceError>(e) && *final(self) == *old(self),
            },
    {
        match op {
            BalanceOp::Deposit(x) => {
                if x > u64::MAX - self.avail {
                    return Err(BalanceError::Overflow);
                }
                self.avail = self.avail + x;
            },
            BalanceOp::Withdraw(x) => {
                if self.avail < x {
                    return Err(BalanceError::InsufficientAvailable);
                }
                self.avail = self.avail - x;
            },
            BalanceOp::Lock(x) => {
                if self.avail < x {
                    return Err(BalanceError::InsufficientAvailable);
                }
                if x > u64::MAX - self.frozen {
                    return Err(BalanceError::Overflow);
                }
                self.avail = self.avail - x;
                self.frozen = self.frozen + x;
            },
            BalanceOp::Unlock(x) => {
                if self.frozen < x {
                    return Err(BalanceError::InsufficientFrozen);
                }
                if x > u64::MAX - self.avail {
                    return Err(BalanceError::Overflow);
                }
                self.avail = self.avail + x;
                self.frozen = self.frozen - x;
            },
            BalanceOp::SpendFrozen(x) => {
                if self.frozen < x {
                    return Err(BalanceError::InsufficientFrozen);
                }
                self.frozen = self.frozen - x;
            },
        }
        self.version = bump(self.version);
        Ok(())
    }

    /// Adds `amount` to the available funds; refused on overflow.
    pub fn deposit(&mut self, amount: u64) -> (res: Result<(), BalanceError>)
        ensures
            match op_result(*old(self), BalanceOp::Deposit(amount)) {
                Ok(nb) => res is Ok && *final(self) == nb,
                Err(e) => res == Err::<(), BalanceError>(e) && *final(self) == *old(self),
            },
    {
        self.apply_op(BalanceOp::Deposit(amount))
    }

    /// Takes `amount` from the available funds; refused when they are short.
    pub fn withdraw(&mut self, amount: u64) -> (res: Result<(), BalanceError>)
        ensures
            match op_result(*old(self), BalanceOp::Withdraw(amount)) {
                Ok(nb) => res is Ok && *final(self) == nb,
                Err(e) => res == Err::<(), BalanceError>(e) && *final(self) == *old(self),
            },
    {
        self.apply_op(BalanceOp::Withdraw(amount))
    }

    /// Locks `amount`: moves it from available to frozen.
    pub fn frozen(&mut self, amount: u64) -> (res: Result<(), BalanceError>)
        ensures
            match op_result(*old(self), BalanceOp::Lock(amount)) {
                Ok(nb) => res is Ok && *final(self) == nb,
                Err(e) => res == Err::<(), BalanceError>(e) && *final(self) == *old(self),
            },
    {
        self.apply_op(BalanceOp::Lock(amount))
    }

    /// Unlocks `amount`: moves it from frozen back to available.
    pub fn unfrozen(&mut self, amount: u64) -> (res: Result<(), BalanceError>)
        ensures
            match op_result(*old(self), BalanceOp::Unlock(amount)) {
                Ok(nb) => res is Ok && *final(self) == nb,
                Err(e) => res == Err::<(), BalanceError>(e) && *final(self) == *old(self),
            },
    {
        self.apply_op(BalanceOp::Unlock(amount))
    }

    /// Spends `amount` of the frozen funds.
    pub fn spend_frozen(&mut self, amount: u64) -> (res: Result<(), BalanceError>)
        ensures
            match op_result(*old(self), BalanceOp::SpendFrozen(amount)) {
                Ok(nb) => res is Ok && *final(self) == nb,
                Err(e) => res == Err::<(), BalanceError>(e) && *final(self) == *old(self),
            },
    {
        self.apply_op(BalanceOp::SpendFrozen(amount))
    }
}

/// What each balance operation does, when it is taken: a deposit adds to
/// the available funds, a withdrawal takes from them, a lock moves funds
/// from available to frozen, an unlock moves them back, and spending takes
/// from the frozen funds; the other part is untouched, and the version
/// moves on by one. An operation is refused exactly when the funds it takes
/// are missing or the funds it adds would not fit in 64 bits.
pub proof fn lemma_balance_op_law(b: Balance, op: BalanceOp)
    ensures
        match op {
            BalanceOp::Deposit(x) => match op_result(b, op) {
                Ok(n) => n.avail == b.avail + x && n.frozen == b.frozen,
                Err(e) => e == BalanceError::Overflow && b.avail + x > u64::MAX,
            },
            BalanceOp::Withdraw(x) => match op_result(b, op) {
                Ok(n) => n.avail == b.avail - x && n.frozen == b.frozen,
                Err(e) => e == BalanceError::InsufficientAvailable && b.avail < x,
            },
            BalanceOp::Lock(x) => match op_result(b, op) {
                Ok(n) => n.avail == b.avail - x && n.frozen == b.frozen + x,
                Err(e) => (e == BalanceError::InsufficientAvailable && b.avail < x)
                    || (e == BalanceError::Overflow && b.avail >= x && b.frozen + x > u64::MAX),
            },
            BalanceOp::Unlock(x) => match op_result(b, op) {
                Ok(n) => n.avail == b.avail + x && n.frozen == b.frozen - x,
                Err(e) => (e == BalanceError::InsufficientFrozen && b.frozen < x)
                    || (e == BalanceError::Overflow && b.frozen >= x && b.avail + x > u64::MAX),
            },
            BalanceOp::SpendFrozen(x) => match op_result(b, op) {
                Ok(n) => n.avail == b.avail && n.frozen == b.frozen - x,
                Err(e) => e == BalanceError::InsufficientFrozen && b.frozen < x,
            },
        },
        op_result(b, op) matches Ok(n) ==> n.version == if b.version == u64::MAX { 0 } else { b.version + 1 },
{
}


/// Locking and unlocking move funds between available and frozen and keep
/// the total: nothing is created or lost.
pub proof fn lemma_lock_unlock_preserve_total(b: Balance, x: u64)
    ensures
        op_result(b, BalanceOp::Lock(x)) matches Ok(nb) ==> total(nb) == total(b),
        op_result(b, BalanceOp::Unlock(x)) matches Ok(nb) ==> total(nb) == total(b),
{
}

/// Locking then unlocking the same amount restores the funds (the version
/// moves on by two).
pub proof fn lemma_unlock_undoes_lock(b: Balance, x: u64)
    requires
        op_result(b, BalanceOp::Lock(x)) is Ok,
    ensures
        ({
            let locked = op_result(b, BalanceOp::Lock(x))->Ok_0;
            &&& op_result(locked, BalanceOp::Unlock(x)) is Ok
            &&& op_result(locked, BalanceOp::Unlock(x))->Ok_0.avail == b.avail
            &&& op_result(locked, BalanceOp::Unlock(x))->Ok_0.frozen == b.frozen
        }),
{
}

// ------------------------------------------------------------------
// User accounts
// ------------------------------------------------------------------

/// The balance of an asset in a list of (asset, balance) entries: the first
/// entry for that asset, or the empty balance when there is none.
pub open spec fn entry_balance(s: Seq<(AssetId, Balance)>, a: AssetId) -> Balance
    decreases s.len(),
{
    if s.len() == 0 {
        zero_balance()
    } else if s[0].0 == a {
        s[0].1
    } else {
        entry_balance(s.drop_first(), a)
    }
}

/// Index of the first entry for an asset, if any.
pub open spec fn entry_index(s: Seq<(AssetId, Balance)>, a: AssetId) -> Option<int>
    decreases s.len(),
{
    if s.len() == 0 {
        None
    } else if s[0].0 == a {
        Some(0)
    } else {
        match entry_index(s.drop_first(), a) {
            Some(i) => Some(i + 1),
            None => None,
        }
    }
}

/// The entries with the balance of asset `a` set to `b`: the first entry for
/// `a` is replaced, or a new entry is appended.
pub open spec fn set_entry(s: Seq<(AssetId, Balance)>, a: AssetId, b: Balance) -> Seq<(AssetId, Balance)> {
    match entry_index(s, a) {
        Some(i) => s.update(i, (a, b)),
        None => s.push((a, b)),
    }
}

/// Where an asset's entry sits, if anywhere, and what reading it gives.
pub proof fn lemma_entry_index_facts(s: Seq<(AssetId, Balance)>, a: AssetId)
    ensures
        match entry_index(s, a) {
            Some(i) => 0 <= i < s.len() && s[i].0 == a && entry_balance(s, a) == s[i].1
                && forall|j: int| 0 <= j < i ==> s[j].0 != a,
            None => entry_balance(s, a) == zero_balance() && forall|j: int| 0 <= j < s.len() ==> s[j].0 != a,
        },
    decreases s.len(),
{
    if s.len() > 0 {
        lemma_entry_index_facts(s.drop_first(), a);
        if s[0].0 != a {
            match entry_index(s.drop_first(), a) {
                Some(i) => {
                    assert forall|j: int| 0 <= j < i + 1 implies s[j].0 != a by {
                        if j > 0 {
                            assert(s[j] == s.drop_first()[j - 1]);
                        }
                    }
                },
                None => {
                    assert forall|j: int| 0 <= j < s.len() implies s[j].0 != a by {
                        if j > 0 {
                            assert(s[j] == s.drop_first()[j - 1]);
                        }
                    }
                },
            }
        }
    }
}

/// After setting the balance of `a`, it reads back; other assets keep theirs.
pub proof fn lemma_set_entry_read(s: Seq<(AssetId, Balance)>, a: AssetId, b: Balance, c: AssetId)
    ensures
        entry_balance(set_entry(s, a, b), c) == if c == a { b } else { entry_balance(s, c) },
        entry_index(set_entry(s, a, b), a) is Some,
{
    let t = set_entry(s, a, b);
    lemma_entry_index_facts(s, a);
    lemma_entry_index_facts(s, c);
    lemma_entry_index_facts(t, c);
    lemma_entry_index_facts(t, a);
    match entry_index(s, a) {
        Some(i) => {
            if c == a {
                match entry_index(t, c) {
                    Some(k) => {
                        if k > i { assert(t[i].0 == a); }
                        if k < i { assert(t[k] == s[k]); }
                    },
                    None => { assert(t[i].0 == a); },
                }
            } else {
                match entry_index(s, c) {
                    Some(j) => {
                        assert(t[j] == s[j]);
                        match entry_index(t, c) {
                            Some(k) => {
                                if k < j { assert(t[k] == s[k] || k == i); }
                                if k > j { assert(t[j].0 == c); }
                            },
                            None => {},
                        }
                    },
                    None => {
                        match entry_index(t, c) {
                            Some(k) => { assert(k == i || t[k] == s[k]); },
                            None => {},
                        }
                    },
                }
            }
        },
        None => {
            if c == a {
                match entry_index(t, c) {
                    Some(k) => {
                        if k < s.len() { assert(t[k] == s[k]); }
                    },
                    None => { assert(t[s.len() as int].0 == a); },
                }
            } else {
                match entry_index(s, c) {
                    Some(j) => {
                        assert(t[j] == s[j]);
                        match entry_index(t, c) {
                            Some(k) => {
                                if k < j { assert(t[k] == s[k]); }
                                if k > j { assert(t[j].0 == c); }
                            },
                            None => {},
                        }
                    },
                    None => {
                        match entry_index(t, c) {
                            Some(k) => { if k < s.len() { assert(t[k] == s[k]); } },
                            None => {},
                        }
                    },
                }
            }
        },
    }
    if entry_index(t, a) is None {
        match entry_index(s, a) {
            Some(i) => { assert(t[i].0 == a); },
            None => { assert(t[s.len() as int].0 == a); },
        }
    }
}

/// A user's account: one balance per asset, in the order the assets were
/// first used.
#[derive(Debug, Clone)]
pub struct UserAccount {
    pub user_id: UserId,
    pub assets: Vec<(AssetId, Balance)>,
}

impl View for UserAccount {
    type V = Seq<(AssetId, Balance)>;

    open spec fn view(&self) -> Seq<(AssetId, Balance)> {
        self.assets@
    }
}

impl UserAccount {
    /// An account with no assets.
    pub fn new(user_id: UserId) -> (res: Self)
        ensures
            res.user_id == user_id,
            res@ == Seq::<(AssetId, Balance)>::empty(),
    {
        UserAccount { user_id, assets: Vec::new() }
    }

    /// Position of the first entry for an asset.
    pub fn find_asset(&self, asset: AssetId) -> (res: Option<usize>)
        ensures
            match res {
                Some(i) => entry_index(self@, asset) == Some(i as int),
                None => entry_index(self@, asset) is None,
            },
    {
        proof { lemma_entry_index_facts(self@, asset); }
        let mut i: usize = 0;
        while i < self.assets.len()
            invariant
                i <= self.assets.len(),
                forall|j: int| 0 <= j < i ==> self@[j].0 != asset,
                entry_index(self@, asset) matches Some(k) ==> k >= i && forall|j: int| 0 <= j < k ==> self@[j].0 != asset,
                entry_index(self@, asset) matches Some(k) ==> k < self@.len() && self@[k].0 == asset,
                entry_index(self@, asset) is None ==> forall|j: int| 0 <= j < self@.len() ==> self@[j].0 != asset,
            decreases self.assets.len() - i,
        {
            if self.assets[i].0 == asset {
                proof {
                    match entry_index(self@, asset) {
                        Some(k) => { if k > i { assert(self@[i as int].0 != asset); } },
                        None => {},
                    }
                }
                return Some(i);
            }
            i = i + 1;
        }
        None
    }

    /// The balance of an asset (empty when the account has none).
    pub fn get_balance(&self, asset: AssetId) -> (res: Balance)
        ensures
            res == entry_balance(self@, asset),
    {
        proof { lemma_entry_index_facts(self@, asset); }
        match self.find_asset(asset) {
            Some(i) => self.assets[i].1,
            None => Balance { avail: 0, frozen: 0, version: 0 },
        }
    }

    /// Makes sure the account has an entry for an asset (appending an empty
    /// one if needed) and returns its position.
    pub fn ensure_asset(&mut self, asset: AssetId) -> (res: usize)
        ensures
            final(self).user_id == old(self).user_id,
            final(self)@ == (match entry_index(old(self)@, asset) {
                Some(_) => old(self)@,
                None => old(self)@.push((asset, zero_balance())),
            }),
            entry_index(final(self)@, asset) == Some(res as int),
            entry_balance(final(self)@, asset) == entry_balance(old(self)@, asset),
            forall|c: AssetId| #[trigger] entry_balance(final(self)@, c) == entry_balance(old(self)@, c),
    {
        proof { lemma_entry_index_facts(old(self)@, asset); }
        match self.find_asset(asset) {
            Some(i) => i,
            None => {
                let ghost s = self@;
                self.assets.push((asset, Balance { avail: 0, frozen: 0, version: 0 }));
                proof {
                    assert(set_entry(s, asset, zero_balance()) == self@);
                    lemma_set_entry_read(s, asset, zero_balance(), asset);
                    assert forall|c: AssetId| #[trigger] entry_balance(self@, c) == entry_balance(s, c) by {
                        lemma_set_entry_read(s, asset, zero_balance(), c);
                    }
                    lemma_entry_index_facts(self@, asset);
                    match entry_index(self@, asset) {
                        Some(k) => { if k < s.len() { assert(self@[k] == s[k]); } },
                        None => {},
                    }
                }
                self.assets.len() - 1
            },
        }
    }

    /// Applies an operation to the balance of an asset. The entry for the
    /// asset is created first if missing, and stays (empty) even when the
    /// operation is refused; otherwise a refusal changes nothing.
    pub fn apply_op(&mut self, asset: AssetId, op: BalanceOp) -> (res: Result<(), BalanceError>)
        ensures
            final(self).user_id == old(self).user_id,
            match op_result(entry_balance(old(self)@, asset), op) {
                Ok(nb) => res is Ok && final(self)@ == set_entry(old(self)@, asset, nb),
                Err(e) => res == Err::<(), BalanceError>(e)
                    && final(self)@ == set_entry(old(self)@, asset, entry_balance(old(self)@, asset)),
            },
    {
        proof { lemma_entry_index_facts(old(self)@, asset); }
        let i = self.ensure_asset(asset);
        let ghost s1 = self@;
        proof { lemma_entry_index_facts(s1, asset); }
        let mut b = self.assets[i].1;
        let r = b.apply_op(op);
        self.assets.set(i, (asset, b));
        proof {
            match entry_index(old(self)@, asset) {
                Some(k) => { assert(k == i); },
                None => { assert(i == old(self)@.len()); },
            }
        }
        r
    }
}

/// The entries after an operation refused by `apply_op`: only an empty
/// entry for the asset may have been added, so every balance reads as before.
pub proof fn lemma_refused_op_keeps_balances(s: Seq<(AssetId, Balance)>, a: AssetId, c: AssetId)
    ensures
        entry_balance(set_entry(s, a, entry_balance(s, a)), c) == entry_balance(s, c),
{
    lemma_set_entry_read(s, a, entry_balance(s, a), c);
}

} // verus!
