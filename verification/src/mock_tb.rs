//! In-memory stand-in for the ledger service's two-phase transfers: a
//! pending transfer takes funds from the debit account at once; posting it
//! credits the other account, voiding it gives the funds back.

use std::collections::HashMap;
use vstd::prelude::*;
use crate::text::owned;

verus! {

broadcast use vstd::std_specs::hash::group_hash_axioms;

/// A two-phase transfer held by the mock.
#[derive(Debug, Clone, Copy, PartialEq, Eq, Structural)]
pub struct PendingTransfer {
    pub id: u128,
    pub debit_account: u128,
    pub credit_account: u128,
    pub amount: i64,
    pub voided: bool,
    pub posted: bool,
}

/// Status of a two-phase transfer.
#[derive(Debug, Clone, Copy, PartialEq, Eq, Structural)]
pub enum TransferStatus {
    Pending,
    Posted,
    Voided,
}

/// Why the mock refuses an operation.
#[derive(Debug, Clone, Copy, PartialEq, Eq, Structural)]
pub enum MockTbError {
    InsufficientBalance,
    TransferNotFound,
    AlreadyVoided,
    AlreadyPosted,
}

/// The message of a mock error.
pub open spec fn mock_error_message(e: MockTbError) -> Seq<char> {
    match e {
        MockTbError::InsufficientBalance => "Insufficient balance"@,
        MockTbError::TransferNotFound => "Transfer not found"@,
        MockTbError::AlreadyVoided => "Transfer already voided"@,
        MockTbError::AlreadyPosted => "Transfer already posted"@,
    }
}

impl MockTbError {
    /// The human-readable message of the error.
    pub fn message(&self) -> (res: String)
        ensures
            res@ == mock_error_message(*self),
    {
        match self {
            MockTbError::InsufficientBalance => owned("Insufficient balance"),
            MockTbError::TransferNotFound => owned("Transfer not found"),
            MockTbError::AlreadyVoided => owned("Transfer already voided"),
            MockTbError::AlreadyPosted => owned("Transfer already posted"),
        }
    }
}

/// Balance of an account in a balance map: zero when it has none.
pub open spec fn balance_in(m: Map<u128, i64>, account: u128) -> int {
    if m.contains_key(account) { m[account] as int } else { 0 }
}

/// Balances after `x` is taken from an account.
pub open spec fn debited(m: Map<u128, i64>, account: u128, x: i64) -> Map<u128, i64> {
    m.insert(account, (balance_in(m, account) - x) as i64)
}

/// Balances after `x` is added to an account.
pub open spec fn credited(m: Map<u128, i64>, account: u128, x: i64) -> Map<u128, i64> {
    m.insert(account, (balance_in(m, account) + x) as i64)
}

/// Status of a recorded transfer: posted wins over voided.
pub open spec fn status_of(t: PendingTransfer) -> TransferStatus {
    if t.posted {
        TransferStatus::Posted
    } else if t.voided {
        TransferStatus::Voided
    } else {
        TransferStatus::Pending
    }
}

/// No recorded transfer is both posted and voided.
pub open spec fn never_posted_and_voided(m: Map<u128, PendingTransfer>) -> bool {
    forall|id: u128| #[trigger] m.contains_key(id) ==> !(m[id].posted && m[id].voided)
}

/// One summation step: add the term of key `k` to the running total.
pub open spec fn add_term(f: spec_fn(u128) -> int) -> spec_fn(int, u128) -> int {
    |acc: int, k: u128| acc + f(k)
}

/// Sum of `f` over a finite set of keys.
pub open spec fn sum_over(s: Set<u128>, f: spec_fn(u128) -> int) -> int {
    s.fold(0int, add_term(f))
}

/// The term of each key of a map: `h` of its value.
pub open spec fn entry_term<V>(m: Map<u128, V>, h: spec_fn(V) -> int) -> spec_fn(u128) -> int {
    |k: u128| h(m[k])
}

/// Sum of `h` over the values of a map.
pub open spec fn map_total<V>(m: Map<u128, V>, h: spec_fn(V) -> int) -> int {
    sum_over(m.dom(), entry_term(m, h))
}

/// What a transfer still holds: its amount while neither posted nor voided.
pub open spec fn pending_amount(t: PendingTransfer) -> int {
    if !t.posted && !t.voided { t.amount as int } else { 0 }
}

/// A balance as an integer.
pub open spec fn balance_value(b: i64) -> int {
    b as int
}

/// All funds the mock holds: the balances of every account plus what the
/// pending transfers hold.
pub open spec fn held_total(balances: Map<u128, i64>, transfers: Map<u128, PendingTransfer>) -> int {
    map_total(balances, |b: i64| balance_value(b)) + map_total(transfers, |t: PendingTransfer| pending_amount(t))
}

proof fn lemma_add_term_commutes(f: spec_fn(u128) -> int)
    ensures
        vstd::set::fold::is_fun_commutative(add_term(f)),
{
    assert forall|a1: u128, a2: u128, b: int| #[trigger] add_term(f)(add_term(f)(b, a2), a1) == add_term(f)(add_term(f)(b, a1), a2) by {}
}

proof fn lemma_sum_insert(s: Set<u128>, f: spec_fn(u128) -> int, a: u128)
    requires
        s.finite(),
        !s.contains(a),
    ensures
        sum_over(s.insert(a), f) == sum_over(s, f) + f(a),
{
    lemma_add_term_commutes(f);
    vstd::set::fold::lemma_fold_insert(s, 0int, add_term(f), a);
}

proof fn lemma_sum_remove(s: Set<u128>, f: spec_fn(u128) -> int, a: u128)
    requires
        s.finite(),
        s.contains(a),
    ensures
        sum_over(s, f) == sum_over(s.remove(a), f) + f(a),
{
    lemma_sum_insert(s.remove(a), f, a);
    assert(s.remove(a).insert(a) =~= s);
}

proof fn lemma_sum_congruent(s: Set<u128>, f: spec_fn(u128) -> int, g: spec_fn(u128) -> int)
    requires
        s.finite(),
        forall|k: u128| s.contains(k) ==> f(k) == g(k),
    ensures
        sum_over(s, f) == sum_over(s, g),
    decreases s.len(),
{
    if s.len() == 0 {
        assert(s =~= Set::<u128>::empty());
        vstd::set::fold::lemma_fold_empty(0int, add_term(f));
        vstd::set::fold::lemma_fold_empty(0int, add_term(g));
    } else {
        let a = s.choose();
        lemma_sum_remove(s, f, a);
        lemma_sum_remove(s, g, a);
        lemma_sum_congruent(s.remove(a), f, g);
    }
}

/// Writing one entry of a map changes the total by the new value's term
/// less the old one's.
pub proof fn lemma_map_total_insert<V>(m: Map<u128, V>, h: spec_fn(V) -> int, a: u128, v: V)
    requires
        m.dom().finite(),
    ensures
        map_total(m.insert(a, v), h) == map_total(m, h) - (if m.contains_key(a) { h(m[a]) } else { 0 }) + h(v),
{
    let m2 = m.insert(a, v);
    let f = entry_term(m, h);
    let g = entry_term(m2, h);
    if m.contains_key(a) {
        assert(m2.dom() =~= m.dom());
        lemma_sum_remove(m.dom(), f, a);
        lemma_sum_remove(m.dom(), g, a);
        lemma_sum_congruent(m.dom().remove(a), f, g);
    } else {
        assert(m2.dom() =~= m.dom().insert(a));
        lemma_sum_insert(m.dom(), g, a);
        lemma_sum_congruent(m.dom(), f, g);
    }
}

/// Creating a transfer under a new id moves its amount from the debit
/// account into the transfer: the funds held stay the same.
pub proof fn lemma_create_keeps_funds(
    m: Map<u128, i64>,
    ts: Map<u128, PendingTransfer>,
    id: u128,
    debit: u128,
    credit: u128,
    amount: i64,
)
    requires
        m.dom().finite(),
        ts.dom().finite(),
        !ts.contains_key(id),
        i64::MIN <= balance_in(m, debit) - amount <= i64::MAX,
    ensures
        held_total(debited(m, debit, amount), ts.insert(id, PendingTransfer {
            id,
            debit_account: debit,
            credit_account: credit,
            amount,
            voided: false,
            posted: false,
        })) == held_total(m, ts),
{
    let t = PendingTransfer { id, debit_account: debit, credit_account: credit, amount, voided: false, posted: false };
    lemma_map_total_insert(m, |b: i64| balance_value(b), debit, (balance_in(m, debit) - amount) as i64);
    lemma_map_total_insert(ts, |x: PendingTransfer| pending_amount(x), id, t);
}

/// Posting a pending transfer moves what it holds to the credit account:
/// the funds held stay the same.
pub proof fn lemma_post_keeps_funds(m: Map<u128, i64>, ts: Map<u128, PendingTransfer>, id: u128)
    requires
        m.dom().finite(),
        ts.dom().finite(),
        ts.contains_key(id),
        !ts[id].posted,
        !ts[id].voided,
        i64::MIN <= balance_in(m, ts[id].credit_account) + ts[id].amount <= i64::MAX,
    ensures
        held_total(credited(m, ts[id].credit_account, ts[id].amount), ts.insert(id, PendingTransfer { posted: true, ..ts[id] }))
            == held_total(m, ts),
{
    let t = ts[id];
    lemma_map_total_insert(m, |b: i64| balance_value(b), t.credit_account, (balance_in(m, t.credit_account) + t.amount) as i64);
    lemma_map_total_insert(ts, |x: PendingTransfer| pending_amount(x), id, PendingTransfer { posted: true, ..t });
}

/// Voiding a pending transfer gives what it holds back to the debit
/// account: the funds held stay the same.
pub proof fn lemma_void_keeps_funds(m: Map<u128, i64>, ts: Map<u128, PendingTransfer>, id: u128)
    requires
        m.dom().finite(),
        ts.dom().finite(),
        ts.contains_key(id),
        !ts[id].posted,
        !ts[id].voided,
        i64::MIN <= balance_in(m, ts[id].debit_account) + ts[id].amount <= i64::MAX,
    ensures
        held_total(credited(m, ts[id].debit_account, ts[id].amount), ts.insert(id, PendingTransfer { voided: true, ..ts[id] }))
            == held_total(m, ts),
{
    let t = ts[id];
    lemma_map_total_insert(m, |b: i64| balance_value(b), t.debit_account, (balance_in(m, t.debit_account) + t.amount) as i64);
    lemma_map_total_insert(ts, |x: PendingTransfer| pending_amount(x), id, PendingTransfer { voided: true, ..t });
}

/// The ledger service stand-in: balances by account, transfers by id.
pub struct MockTbClient {
    balances: HashMap<u128, i64>,
    pending_transfers: HashMap<u128, PendingTransfer>,
}

impl MockTbClient {
    /// Balances by account.
    pub closed spec fn balances(&self) -> Map<u128, i64> {
        self.balances@
    }

    /// Transfers by id.
    pub closed spec fn transfers(&self) -> Map<u128, PendingTransfer> {
        self.pending_transfers@
    }

    /// No accounts and no transfers.
    pub fn new() -> (res: MockTbClient)
        ensures
            res.balances().is_empty(),
            res.transfers().is_empty(),
    {
        MockTbClient { balances: HashMap::new(), pending_transfers: HashMap::new() }
    }

    /// Sets an account's balance.
    pub fn set_balance(&mut self, account_id: u128, balance: i64)
        ensures
            final(self).balances() == old(self).balances().insert(account_id, balance),
            final(self).transfers() == old(self).transfers(),
    {
        self.balances.insert(account_id, balance);
    }

    fn balance_of(&self, account_id: u128) -> (res: i64)
        ensures
            res as int == balance_in(self.balances(), account_id),
    {
        match self.balances.get(&account_id) {
            Some(b) => *b,
            None => 0,
        }
    }

    /// An account's balance (zero for an unknown account).
    pub fn get_available_balance(&self, account_id: u128) -> (res: Result<i64, MockTbError>)
        ensures
            res matches Ok(b) && b as int == balance_in(self.balances(), account_id),
    {
        Ok(self.balance_of(account_id))
    }

    /// Records a pending transfer and takes `amount` from the debit account;
    /// refused when the debit account holds less than `amount`.
    pub fn create_pending_transfer(
        &mut self,
        transfer_id: u128,
        debit_account: u128,
        credit_account: u128,
        amount: i64,
    ) -> (res: Result<(), MockTbError>)
        requires
            balance_in(old(self).balances(), debit_account) - amount <= i64::MAX,
        ensures
            balance_in(old(self).balances(), debit_account) < amount ==> {
                &&& res == Err::<(), MockTbError>(MockTbError::InsufficientBalance)
                &&& final(self).balances() == old(self).balances()
                &&& final(self).transfers() == old(self).transfers()
            },
            never_posted_and_voided(old(self).transfers()) ==> never_posted_and_voided(final(self).transfers()),
            !old(self).transfers().contains_key(transfer_id) ==> held_total(final(self).balances(), final(self).transfers())
                == held_total(old(self).balances(), old(self).transfers()),
            balance_in(old(self).balances(), debit_account) >= amount ==> {
                &&& res is Ok
                &&& final(self).balances() == debited(old(self).balances(), debit_account, amount)
                &&& final(self).transfers() == old(self).transfers().insert(transfer_id, PendingTransfer {
                    id: transfer_id,
                    debit_account,
                    credit_account,
                    amount,
                    voided: false,
                    posted: false,
                })
            },
    {
        let debit_balance = self.balance_of(debit_account);
        if debit_balance < amount {
            return Err(MockTbError::InsufficientBalance);
        }
        proof {
            if !self.transfers().contains_key(transfer_id) {
                lemma_create_keeps_funds(self.balances(), self.transfers(), transfer_id, debit_account, credit_account, amount);
            }
        }
        self.balances.insert(debit_account, debit_balance - amount);
        self.pending_transfers.insert(transfer_id, PendingTransfer {
            id: transfer_id,
            debit_account,
            credit_account,
            amount,
            voided: false,
            posted: false,
        });
        Ok(())
    }

    /// Posts a pending transfer: credits its amount to the credit account.
    /// Refused for an unknown, voided or already posted transfer.
    pub fn post_pending_transfer(&mut self, transfer_id: u128) -> (res: Result<(), MockTbError>)
        requires
            old(self).transfers().contains_key(transfer_id) ==> balance_in(old(self).balances(),
                old(self).transfers()[transfer_id].credit_account)
                + old(self).transfers()[transfer_id].amount <= i64::MAX,
            old(self).transfers().contains_key(transfer_id) ==> balance_in(old(self).balances(),
                old(self).transfers()[transfer_id].credit_account)
                + old(self).transfers()[transfer_id].amount >= i64::MIN,
        ensures
            never_posted_and_voided(old(self).transfers()) ==> never_posted_and_voided(final(self).transfers()),
            held_total(final(self).balances(), final(self).transfers()) == held_total(old(self).balances(), old(self).transfers()),
            !old(self).transfers().contains_key(transfer_id) ==> {
                &&& res == Err::<(), MockTbError>(MockTbError::TransferNotFound)
                &&& *final(self) == *old(self)
            },
            old(self).transfers().contains_key(transfer_id) ==> {
                let t = old(self).transfers()[transfer_id];
                &&& t.voided ==> res == Err::<(), MockTbError>(MockTbError::AlreadyVoided) && *final(self) == *old(self)
                &&& !t.voided && t.posted ==> res == Err::<(), MockTbError>(MockTbError::AlreadyPosted)
                    && *final(self) == *old(self)
                &&& !t.voided && !t.posted ==> {
                    &&& res is Ok
                    &&& final(self).transfers() == old(self).transfers().insert(transfer_id,
                        PendingTransfer { posted: true, ..t })
                    &&& final(self).balances() == credited(old(self).balances(), t.credit_account, t.amount)
                }
            },
    {
        let t = match self.pending_transfers.get(&transfer_id) {
            Some(t) => *t,
            None => return Err(MockTbError::TransferNotFound),
        };
        if t.voided {
            return Err(MockTbError::AlreadyVoided);
        }
        if t.posted {
            return Err(MockTbError::AlreadyPosted);
        }
        proof { lemma_post_keeps_funds(self.balances(), self.transfers(), transfer_id); }
        self.pending_transfers.insert(transfer_id, PendingTransfer { posted: true, ..t });
        let credit_balance = self.balance_of(t.credit_account);
        self.balances.insert(t.credit_account, credit_balance + t.amount);
        Ok(())
    }

    /// Voids a pending transfer: gives its amount back to the debit account.
    /// Voiding twice does nothing more; an unknown or posted transfer is refused.
    pub fn void_pending_transfer(&mut self, transfer_id: u128) -> (res: Result<(), MockTbError>)
        requires
            old(self).transfers().contains_key(transfer_id) ==> balance_in(old(self).balances(),
                old(self).transfers()[transfer_id].debit_account)
                + old(self).transfers()[transfer_id].amount <= i64::MAX,
            old(self).transfers().contains_key(transfer_id) ==> balance_in(old(self).balances(),
                old(self).transfers()[transfer_id].debit_account)
                + old(self).transfers()[transfer_id].amount >= i64::MIN,
        ensures
            never_posted_and_voided(old(self).transfers()) ==> never_posted_and_voided(final(self).transfers()),
            held_total(final(self).balances(), final(self).transfers()) == held_total(old(self).balances(), old(self).transfers()),
            !old(self).transfers().contains_key(transfer_id) ==> {
                &&& res == Err::<(), MockTbError>(MockTbError::TransferNotFound)
                &&& *final(self) == *old(self)
            },
            old(self).transfers().contains_key(transfer_id) ==> {
                let t = old(self).transfers()[transfer_id];
                &&& t.posted ==> res == Err::<(), MockTbError>(MockTbError::AlreadyPosted) && *final(self) == *old(self)
                &&& !t.posted && t.voided ==> res is Ok && *final(self) == *old(self)
                &&& !t.posted && !t.voided ==> {
                    &&& res is Ok
                    &&& final(self).transfers() == old(self).transfers().insert(transfer_id,
                        PendingTransfer { voided: true, ..t })
                    &&& final(self).balances() == credited(old(self).balances(), t.debit_account, t.amount)
                }
            },
    {
        let t = match self.pending_transfers.get(&transfer_id) {
            Some(t) => *t,
            None => return Err(MockTbError::TransferNotFound),
        };
        if t.posted {
            return Err(MockTbError::AlreadyPosted);
        }
        if t.voided {
            return Ok(());
        }
        proof { lemma_void_keeps_funds(self.balances(), self.transfers(), transfer_id); }
        self.pending_transfers.insert(transfer_id, PendingTransfer { voided: true, ..t });
        let debit_balance = self.balance_of(t.debit_account);
        self.balances.insert(t.debit_account, debit_balance + t.amount);
        Ok(())
    }

    /// Status of a transfer, if it is known.
    pub fn lookup_transfer(&self, transfer_id: u128) -> (res: Option<TransferStatus>)
        ensures
            match res {
                Some(s) => self.transfers().contains_key(transfer_id)
                    && s == status_of(self.transfers()[transfer_id]),
                None => !self.transfers().contains_key(transfer_id),
            },
    {
        match self.pending_transfers.get(&transfer_id) {
            Some(t) => Some(if t.posted {
                TransferStatus::Posted
            } else if t.voided {
                TransferStatus::Voided
            } else {
                TransferStatus::Pending
            }),
            None => None,
        }
    }
}


/// Voiding a transfer right after creating it gives every account its
/// balance back.
pub proof fn lemma_void_restores_balances(m: Map<u128, i64>, debit: u128, amount: i64)
    requires
        balance_in(m, debit) >= amount,
        balance_in(m, debit) - amount <= i64::MAX,
    ensures
        forall|a: u128| balance_in(credited(debited(m, debit, amount), debit, amount), a) == balance_in(m, a),
{
}

/// Posting a transfer right after creating it moves its amount from the
/// debit account to the credit account and leaves every other account alone.
pub proof fn lemma_post_moves_funds(m: Map<u128, i64>, debit: u128, credit: u128, amount: i64)
    requires
        debit != credit,
        balance_in(m, debit) >= amount,
        balance_in(m, debit) - amount <= i64::MAX,
        i64::MIN <= balance_in(m, credit) + amount <= i64::MAX,
    ensures
        ({
            let after = credited(debited(m, debit, amount), credit, amount);
            &&& balance_in(after, debit) == balance_in(m, debit) - amount
            &&& balance_in(after, credit) == balance_in(m, credit) + amount
            &&& forall|a: u128| a != debit && a != credit ==> balance_in(after, a) == balance_in(m, a)
        }),
{
}

} // verus!
