//! The balance ledger: commands that move funds, their effect on the
//! accounts, a shadow ledger that applies commands to a private copy, and
//! all-or-nothing batch commits.

use std::collections::HashMap;
use vstd::prelude::*;
use crate::balance::{
    AssetId, Balance, BalanceError, BalanceOp, UserAccount, UserId, entry_balance,
    entry_index, op_result, set_entry, zero_balance, lemma_entry_index_facts, lemma_set_entry_read,
};
use crate::order_utils::OrderStatus;

verus! {

broadcast use vstd::std_specs::hash::group_hash_axioms;

/// One matched trade to settle between a buyer and a seller.
#[derive(Debug, Clone, Copy, PartialEq, Eq, Structural)]
pub struct MatchExecData {
    pub trade_id: u64,
    pub buy_order_id: u64,
    pub sell_order_id: u64,
    pub buyer_user_id: UserId,
    pub seller_user_id: UserId,
    pub price: u64,
    pub quantity: u64,
    pub base_asset: AssetId,
    pub quote_asset: AssetId,
    /// Quote funds to release back to the buyer (locked at a worse price).
    pub buyer_refund: u64,
    /// Base funds to release back to the seller.
    pub seller_refund: u64,
    pub match_seq: u64,
}

/// A change in an order's life cycle (accepted, rejected, cancelled, ...),
/// carried in the command stream next to the balance changes.
#[derive(Debug, Clone)]
pub struct OrderUpdate {
    pub order_id: u64,
    pub client_order_id: Option<String>,
    pub user_id: UserId,
    pub symbol_id: u32,
    pub side: u8,
    pub order_type: u8,
    pub status: OrderStatus,
    pub price: u64,
    /// The quantity the update is about (what is left of a cancelled order).
    pub qty: u64,
    pub filled_qty: u64,
    pub avg_fill_price: Option<u64>,
    pub rejection_reason: Option<String>,
    pub timestamp: u64,
    pub match_id: Option<u64>,
}

/// A command applied to the ledger.
#[derive(Debug)]
pub enum LedgerCommand {
    Deposit { user_id: UserId, asset: AssetId, amount: u64 },
    Withdraw { user_id: UserId, asset: AssetId, amount: u64 },
    Lock { user_id: UserId, asset: AssetId, amount: u64 },
    Unlock { user_id: UserId, asset: AssetId, amount: u64 },
    /// Spend frozen funds of one asset and gain another (a settled trade
    /// seen from one side).
    TradeSettle { user_id: UserId, spend_asset: AssetId, spend_amount: u64, gain_asset: AssetId, gain_amount: u64 },
    MatchExec(MatchExecData),
    MatchExecBatch(Vec<MatchExecData>),
    Batch(Vec<LedgerCommand>),
    /// An order's status changed; no balance moves.
    OrderUpdate(OrderUpdate),
}

/// Why a command is refused.
#[derive(Debug, Clone, Copy, PartialEq, Eq, Structural)]
pub enum LedgerError {
    /// A balance operation of `user_id` on `asset` was refused.
    Balance { user_id: UserId, asset: AssetId, error: BalanceError },
    /// The user holds no entry for the asset to spend.
    AssetNotFound { user_id: UserId, asset: AssetId },
    /// Price times quantity does not fit in 64 bits.
    QuoteOverflow,
    /// A trade names a user without an account.
    AccountNotFound { user_id: UserId },
}

/// Abstract ledger state: each user's list of (asset, balance) entries.
pub type Books = Map<UserId, Seq<(AssetId, Balance)>>;

/// The abstract state of a map of accounts.
pub open spec fn books(m: Map<UserId, UserAccount>) -> Books {
    Map::new(|u: UserId| m.contains_key(u), |u: UserId| m[u]@)
}

/// A user's entries (none for an unknown user).
pub open spec fn acct(b: Books, u: UserId) -> Seq<(AssetId, Balance)> {
    if b.contains_key(u) { b[u] } else { Seq::empty() }
}

/// The balance of a user in an asset (empty when unknown).
pub open spec fn bal(b: Books, u: UserId, a: AssetId) -> Balance {
    entry_balance(acct(b, u), a)
}

/// An operation on one asset of a list of entries.
pub open spec fn seq_op(s: Seq<(AssetId, Balance)>, a: AssetId, op: BalanceOp) -> Result<Seq<(AssetId, Balance)>, BalanceError> {
    match op_result(entry_balance(s, a), op) {
        Ok(nb) => Ok(set_entry(s, a, nb)),
        Err(e) => Err(e),
    }
}

/// Effect of a single-asset command: the user's entry for the asset is
/// created if missing (and stays, empty, when the operation is refused).
pub open spec fn single_effect(b: Books, u: UserId, a: AssetId, op: BalanceOp) -> (Books, Option<LedgerError>) {
    let s = acct(b, u);
    match op_result(entry_balance(s, a), op) {
        Ok(nb) => (b.insert(u, set_entry(s, a, nb)), None),
        Err(e) => (b.insert(u, set_entry(s, a, entry_balance(s, a))), Some(LedgerError::Balance { user_id: u, asset: a, error: e })),
    }
}

/// Effect of a one-sided trade settlement: spend frozen funds of one asset
/// (which must already have an entry), then gain the other. A gain that
/// would overflow is dropped; a new entry for the gained asset starts at
/// version 1.
pub open spec fn settle_effect(b: Books, u: UserId, spend: AssetId, x: u64, gain: AssetId, g: u64) -> (Books, Option<LedgerError>) {
    let s = acct(b, u);
    match entry_index(s, spend) {
        None => (b.insert(u, s), Some(LedgerError::AssetNotFound { user_id: u, asset: spend })),
        Some(_) => match op_result(entry_balance(s, spend), BalanceOp::SpendFrozen(x)) {
            Err(e) => (b.insert(u, s), Some(LedgerError::Balance { user_id: u, asset: spend, error: e })),
            Ok(nb) => {
                let s1 = set_entry(s, spend, nb);
                let s2 = match entry_index(s1, gain) {
                    Some(_) => match op_result(entry_balance(s1, gain), BalanceOp::Deposit(g)) {
                        Ok(gb) => set_entry(s1, gain, gb),
                        Err(_) => s1,
                    },
                    None => s1.push((gain, Balance { avail: g, frozen: 0, version: 1 })),
                };
                (b.insert(u, s2), None)
            },
        },
    }
}

/// The buyer's side of a trade: spend the quote cost from frozen, release
/// the refund (if any) to available, receive the base quantity.
pub open spec fn buyer_settle(s: Seq<(AssetId, Balance)>, d: MatchExecData, q: u64) -> Result<Seq<(AssetId, Balance)>, LedgerError> {
    let u = d.buyer_user_id;
    match seq_op(s, d.quote_asset, BalanceOp::SpendFrozen(q)) {
        Err(e) => Err(LedgerError::Balance { user_id: u, asset: d.quote_asset, error: e }),
        Ok(s1) => {
            let r2 = if d.buyer_refund > 0 { seq_op(s1, d.quote_asset, BalanceOp::Unlock(d.buyer_refund)) } else { Ok(s1) };
            match r2 {
                Err(e) => Err(LedgerError::Balance { user_id: u, asset: d.quote_asset, error: e }),
                Ok(s2) => match seq_op(s2, d.base_asset, BalanceOp::Deposit(d.quantity)) {
                    Err(e) => Err(LedgerError::Balance { user_id: u, asset: d.base_asset, error: e }),
                    Ok(s3) => Ok(s3),
                },
            }
        },
    }
}

/// The seller's side of a trade: spend the base quantity from frozen,
/// release the refund (if any), receive the quote cost.
pub open spec fn seller_settle(s: Seq<(AssetId, Balance)>, d: MatchExecData, q: u64) -> Result<Seq<(AssetId, Balance)>, LedgerError> {
    let u = d.seller_user_id;
    match seq_op(s, d.base_asset, BalanceOp::SpendFrozen(d.quantity)) {
        Err(e) => Err(LedgerError::Balance { user_id: u, asset: d.base_asset, error: e }),
        Ok(s1) => {
            let r2 = if d.seller_refund > 0 { seq_op(s1, d.base_asset, BalanceOp::Unlock(d.seller_refund)) } else { Ok(s1) };
            match r2 {
                Err(e) => Err(LedgerError::Balance { user_id: u, asset: d.base_asset, error: e }),
                Ok(s2) => match seq_op(s2, d.quote_asset, BalanceOp::Deposit(q)) {
                    Err(e) => Err(LedgerError::Balance { user_id: u, asset: d.quote_asset, error: e }),
                    Ok(s3) => Ok(s3),
                },
            }
        },
    }
}

/// Effect of settling one trade: both accounts must exist; the buyer is
/// settled first, then the seller (on the buyer's result when they are the
/// same user). A refusal leaves the books unchanged.
pub open spec fn match_effect(b: Books, d: MatchExecData) -> (Books, Option<LedgerError>) {
    if d.price * d.quantity > u64::MAX {
        (b, Some(LedgerError::QuoteOverflow))
    } else if !b.contains_key(d.buyer_user_id) {
        (b, Some(LedgerError::AccountNotFound { user_id: d.buyer_user_id }))
    } else if !b.contains_key(d.seller_user_id) {
        (b, Some(LedgerError::AccountNotFound { user_id: d.seller_user_id }))
    } else {
        let q = (d.price * d.quantity) as u64;
        match buyer_settle(b[d.buyer_user_id], d, q) {
            Err(e) => (b, Some(e)),
            Ok(sb) => {
                let b1 = b.insert(d.buyer_user_id, sb);
                match seller_settle(b1[d.seller_user_id], d, q) {
                    Err(e) => (b, Some(e)),
                    Ok(ss) => (b1.insert(d.seller_user_id, ss), None),
                }
            },
        }
    }
}

/// Settles trades in order, stopping at the first refusal; the trades
/// before it stay settled.
pub open spec fn match_batch_effect(b: Books, ds: Seq<MatchExecData>) -> (Books, Option<LedgerError>)
    decreases ds.len(),
{
    if ds.len() == 0 {
        (b, None)
    } else {
        let (b1, r) = match_effect(b, ds[0]);
        if r is Some { (b1, r) } else { match_batch_effect(b1, ds.drop_first()) }
    }
}

/// Effect of a command on the books, and the refusal if any.
pub open spec fn cmd_effect(b: Books, c: LedgerCommand) -> (Books, Option<LedgerError>)
    decreases c,
{
    match c {
        LedgerCommand::Deposit { user_id, asset, amount } => single_effect(b, user_id, asset, BalanceOp::Deposit(amount)),
        LedgerCommand::Withdraw { user_id, asset, amount } => single_effect(b, user_id, asset, BalanceOp::Withdraw(amount)),
        LedgerCommand::Lock { user_id, asset, amount } => single_effect(b, user_id, asset, BalanceOp::Lock(amount)),
        LedgerCommand::Unlock { user_id, asset, amount } => single_effect(b, user_id, asset, BalanceOp::Unlock(amount)),
        LedgerCommand::TradeSettle { user_id, spend_asset, spend_amount, gain_asset, gain_amount } =>
            settle_effect(b, user_id, spend_asset, spend_amount, gain_asset, gain_amount),
        LedgerCommand::MatchExec(d) => match_effect(b, d),
        LedgerCommand::MatchExecBatch(ds) => match_batch_effect(b, ds@),
        LedgerCommand::Batch(cs) => cmds_effect(b, cs@),
        LedgerCommand::OrderUpdate(_) => (b, None),
    }
}

/// Commands applied in order, stopping at the first refusal (the commands
/// before it keep their effect).
pub open spec fn cmds_effect(b: Books, cs: Seq<LedgerCommand>) -> (Books, Option<LedgerError>)
    decreases cs,
{
    if cs.len() == 0 {
        (b, None)
    } else {
        let (b1, r) = cmd_effect(b, cs[0]);
        if r is Some { (b1, r) } else { cmds_effect(b1, cs.drop_first()) }
    }
}


/// Storing an account stores its entries in the books.
pub proof fn lemma_books_insert(m: Map<UserId, UserAccount>, u: UserId, a: UserAccount)
    ensures
        books(m.insert(u, a)) == books(m).insert(u, a@),
{
    assert(books(m.insert(u, a)) =~= books(m).insert(u, a@));
}

/// Dropping an account drops its entries from the books.
pub proof fn lemma_books_remove(m: Map<UserId, UserAccount>, u: UserId)
    ensures
        books(m.remove(u)) == books(m).remove(u),
{
    assert(books(m.remove(u)) =~= books(m).remove(u));
}

/// Re-inserting a user's own entries changes nothing.
pub proof fn lemma_books_reinsert(b: Books, u: UserId)
    requires
        b.contains_key(u),
    ensures
        b.insert(u, b[u]) == b,
{
    assert(b.insert(u, b[u]) =~= b);
}

/// Setting an existing entry to its own balance changes nothing.
pub proof fn lemma_set_entry_same(s: Seq<(AssetId, Balance)>, a: AssetId)
    requires
        entry_index(s, a) is Some,
    ensures
        set_entry(s, a, entry_balance(s, a)) == s,
{
    lemma_entry_index_facts(s, a);
    let i = entry_index(s, a)->0;
    assert(s.update(i, (a, entry_balance(s, a))) =~= s);
}

/// Every account is stored under its own user.
pub open spec fn keyed(m: Map<UserId, UserAccount>) -> bool {
    forall|u: UserId| m.contains_key(u) ==> #[trigger] m[u].user_id == u
}

/// Removes a user's account from the map, or makes a new empty one.
fn take_account(accounts: &mut HashMap<UserId, UserAccount>, user: UserId) -> (res: UserAccount)
    ensures
        res@ == acct(books(old(accounts)@), user),
        books(final(accounts)@) == books(old(accounts)@).remove(user),
        keyed(old(accounts)@) ==> keyed(final(accounts)@) && res.user_id == user,
{
    proof { lemma_books_remove(old(accounts)@, user); }
    match accounts.remove(&user) {
        Some(a) => a,
        None => UserAccount::new(user),
    }
}

/// Puts an account's entries back under a user, as that user's account.
fn put_account(accounts: &mut HashMap<UserId, UserAccount>, user: UserId, a: UserAccount)
    ensures
        books(final(accounts)@) == books(old(accounts)@).insert(user, a@),
        keyed(old(accounts)@) ==> keyed(final(accounts)@),
{
    let owned = UserAccount { user_id: user, assets: a.assets };
    proof { lemma_books_insert(old(accounts)@, user, owned); }
    accounts.insert(user, owned);
}

/// An independent copy of an account.
pub fn copy_account(a: &UserAccount) -> (res: UserAccount)
    ensures
        res@ == a@,
        res.user_id == a.user_id,
{
    let mut assets: Vec<(AssetId, Balance)> = Vec::new();
    let mut i: usize = 0;
    while i < a.assets.len()
        invariant
            i <= a.assets.len(),
            assets@ == a@.take(i as int),
        decreases a.assets.len() - i,
    {
        let e = a.assets[i];
        assets.push(e);
        i = i + 1;
        proof { assert(assets@ =~= a@.take(i as int)); }
    }
    proof { assert(a@.take(a@.len() as int) =~= a@); }
    UserAccount { user_id: a.user_id, assets }
}

fn apply_single(accounts: &mut HashMap<UserId, UserAccount>, user: UserId, asset: AssetId, op: BalanceOp)
    -> (res: Result<(), LedgerError>)
    ensures
        books(final(accounts)@) == single_effect(books(old(accounts)@), user, asset, op).0,
        res matches Err(e) ==> single_effect(books(old(accounts)@), user, asset, op).1 == Some(e),
        res is Ok ==> single_effect(books(old(accounts)@), user, asset, op).1 is None,
        keyed(old(accounts)@) ==> keyed(final(accounts)@),
{
    let ghost b = books(old(accounts)@);
    let mut a = take_account(accounts, user);
    let r = a.apply_op(asset, op);
    put_account(accounts, user, a);
    proof {
        assert(b.remove(user).insert(user, a@) =~= b.insert(user, a@));
    }
    match r {
        Ok(()) => Ok(()),
        Err(e) => Err(LedgerError::Balance { user_id: user, asset, error: e }),
    }
}

fn apply_trade_settle(accounts: &mut HashMap<UserId, UserAccount>, user: UserId, spend: AssetId, x: u64, gain: AssetId, g: u64)
    -> (res: Result<(), LedgerError>)
    ensures
        books(final(accounts)@) == settle_effect(books(old(accounts)@), user, spend, x, gain, g).0,
        res matches Err(e) ==> settle_effect(books(old(accounts)@), user, spend, x, gain, g).1 == Some(e),
        res is Ok ==> settle_effect(books(old(accounts)@), user, spend, x, gain, g).1 is None,
        keyed(old(accounts)@) ==> keyed(final(accounts)@),
{
    let ghost b = books(old(accounts)@);
    let mut a = take_account(accounts, user);
    let ghost s = a@;
    proof {
        assert(b.remove(user).insert(user, s) =~= b.insert(user, s));
        lemma_entry_index_facts(s, spend);
    }
    match a.find_asset(spend) {
        None => {
            put_account(accounts, user, a);
            return Err(LedgerError::AssetNotFound { user_id: user, asset: spend });
        },
        Some(_) => {},
    }
    let r = a.apply_op(spend, BalanceOp::SpendFrozen(x));
    match r {
        Err(e) => {
            proof { lemma_set_entry_same(s, spend); }
            put_account(accounts, user, a);
            return Err(LedgerError::Balance { user_id: user, asset: spend, error: e });
        },
        Ok(()) => {},
    }
    let ghost s1 = a@;
    proof { lemma_entry_index_facts(s1, gain); }
    match a.find_asset(gain) {
        Some(_) => {
            let r2 = a.apply_op(gain, BalanceOp::Deposit(g));
            proof {
                if r2 is Err { lemma_set_entry_same(s1, gain); }
            }
        },
        None => {
            a.assets.push((gain, Balance { avail: g, frozen: 0, version: 1 }));
        },
    }
    put_account(accounts, user, a);
    proof {
        assert(b.remove(user).insert(user, a@) =~= b.insert(user, a@));
    }
    Ok(())
}

/// Applies `op` to an account and wraps a refusal as a ledger error.
fn account_step(a: &mut UserAccount, user: UserId, asset: AssetId, op: BalanceOp) -> (res: Result<(), LedgerError>)
    ensures
        match seq_op(old(a)@, asset, op) {
            Ok(s) => res is Ok && final(a)@ == s,
            Err(e) => res == Err::<(), LedgerError>(LedgerError::Balance { user_id: user, asset, error: e }),
        },
{
    match a.apply_op(asset, op) {
        Ok(()) => Ok(()),
        Err(e) => Err(LedgerError::Balance { user_id: user, asset, error: e }),
    }
}

fn settle_buyer_account(a: &mut UserAccount, d: &MatchExecData, q: u64) -> (res: Result<(), LedgerError>)
    ensures
        match buyer_settle(old(a)@, *d, q) {
            Ok(s) => res is Ok && final(a)@ == s,
            Err(e) => res == Err::<(), LedgerError>(e),
        },
{
    account_step(a, d.buyer_user_id, d.quote_asset, BalanceOp::SpendFrozen(q))?;
    if d.buyer_refund > 0 {
        account_step(a, d.buyer_user_id, d.quote_asset, BalanceOp::Unlock(d.buyer_refund))?;
    }
    account_step(a, d.buyer_user_id, d.base_asset, BalanceOp::Deposit(d.quantity))?;
    Ok(())
}

fn settle_seller_account(a: &mut UserAccount, d: &MatchExecData, q: u64) -> (res: Result<(), LedgerError>)
    ensures
        match seller_settle(old(a)@, *d, q) {
            Ok(s) => res is Ok && final(a)@ == s,
            Err(e) => res == Err::<(), LedgerError>(e),
        },
{
    account_step(a, d.seller_user_id, d.base_asset, BalanceOp::SpendFrozen(d.quantity))?;
    if d.seller_refund > 0 {
        account_step(a, d.seller_user_id, d.base_asset, BalanceOp::Unlock(d.seller_refund))?;
    }
    account_step(a, d.seller_user_id, d.quote_asset, BalanceOp::Deposit(q))?;
    Ok(())
}

/// Settles one trade between two existing accounts; a refusal leaves the
/// accounts unchanged.
pub fn apply_match_exec(accounts: &mut HashMap<UserId, UserAccount>, d: &MatchExecData) -> (res: Result<(), LedgerError>)
    ensures
        books(final(accounts)@) == match_effect(books(old(accounts)@), *d).0,
        res matches Err(e) ==> match_effect(books(old(accounts)@), *d).1 == Some(e),
        res is Ok ==> match_effect(books(old(accounts)@), *d).1 is None,
        keyed(old(accounts)@) ==> keyed(final(accounts)@),
{
    let ghost b = books(old(accounts)@);
    let q = match d.price.checked_mul(d.quantity) {
        Some(q) => q,
        None => return Err(LedgerError::QuoteOverflow),
    };
    if !accounts.contains_key(&d.buyer_user_id) {
        return Err(LedgerError::AccountNotFound { user_id: d.buyer_user_id });
    }
    if !accounts.contains_key(&d.seller_user_id) {
        return Err(LedgerError::AccountNotFound { user_id: d.seller_user_id });
    }
    let b_orig = take_account(accounts, d.buyer_user_id);
    proof { lemma_books_reinsert(b, d.buyer_user_id); assert(b.remove(d.buyer_user_id).insert(d.buyer_user_id, b_orig@) =~= b); }
    let mut b_new = copy_account(&b_orig);
    if let Err(e) = settle_buyer_account(&mut b_new, d, q) {
        put_account(accounts, d.buyer_user_id, b_orig);
        return Err(e);
    }
    let ghost b1 = b.insert(d.buyer_user_id, b_new@);
    if d.seller_user_id == d.buyer_user_id {
        let mut s_new = copy_account(&b_new);
        if let Err(e) = settle_seller_account(&mut s_new, d, q) {
            put_account(accounts, d.buyer_user_id, b_orig);
            return Err(e);
        }
        put_account(accounts, d.buyer_user_id, s_new);
        proof {
            assert(b.remove(d.buyer_user_id).insert(d.buyer_user_id, s_new@) =~= b1.insert(d.seller_user_id, s_new@));
        }
        return Ok(());
    }
    let s_orig = take_account(accounts, d.seller_user_id);
    let mut s_new = copy_account(&s_orig);
    if let Err(e) = settle_seller_account(&mut s_new, d, q) {
        put_account(accounts, d.seller_user_id, s_orig);
        put_account(accounts, d.buyer_user_id, b_orig);
        proof {
            assert(b.remove(d.buyer_user_id).remove(d.seller_user_id).insert(d.seller_user_id, s_orig@).insert(d.buyer_user_id, b_orig@) =~= b);
        }
        return Err(e);
    }
    put_account(accounts, d.buyer_user_id, b_new);
    put_account(accounts, d.seller_user_id, s_new);
    proof {
        assert(b.remove(d.buyer_user_id).remove(d.seller_user_id).insert(d.buyer_user_id, b_new@).insert(d.seller_user_id, s_new@)
            =~= b1.insert(d.seller_user_id, s_new@));
    }
    Ok(())
}

/// Settles trades in order and stops at the first refusal; earlier trades
/// stay settled.
pub fn apply_match_batch(accounts: &mut HashMap<UserId, UserAccount>, ds: &Vec<MatchExecData>) -> (res: Result<(), LedgerError>)
    ensures
        books(final(accounts)@) == match_batch_effect(books(old(accounts)@), ds@).0,
        res matches Err(e) ==> match_batch_effect(books(old(accounts)@), ds@).1 == Some(e),
        res is Ok ==> match_batch_effect(books(old(accounts)@), ds@).1 is None,
        keyed(old(accounts)@) ==> keyed(final(accounts)@),
{
    let ghost b0 = books(old(accounts)@);
    let mut i: usize = 0;
    proof { assert(ds@.skip(0) =~= ds@); }
    while i < ds.len()
        invariant
            i <= ds.len(),
            b0 == books(old(accounts)@),
            match_batch_effect(books(accounts@), ds@.skip(i as int)) == match_batch_effect(b0, ds@),
            keyed(old(accounts)@) ==> keyed(accounts@),
        decreases ds.len() - i,
    {
        let ghost cur = books(accounts@);
        proof {
            assert(ds@.skip(i as int).drop_first() =~= ds@.skip(i + 1));
            assert(ds@.skip(i as int)[0] == ds@[i as int]);
        }
        let r = apply_match_exec(accounts, &ds[i]);
        proof {
            let sk = ds@.skip(i as int);
            assert(sk.len() > 0);
            assert(match_batch_effect(cur, sk) == {
                let (b1, r1) = match_effect(cur, sk[0]);
                if r1 is Some { (b1, r1) } else { match_batch_effect(b1, sk.drop_first()) }
            });
        }
        if let Err(e) = r {
            return Err(e);
        }
        i = i + 1;
    }
    Ok(())
}

/// Applies a command to the accounts: the books change exactly as
/// `cmd_effect` says, and the refusal, if any, is returned.
pub fn apply_transaction(accounts: &mut HashMap<UserId, UserAccount>, cmd: &LedgerCommand) -> (res: Result<(), LedgerError>)
    ensures
        books(final(accounts)@) == cmd_effect(books(old(accounts)@), *cmd).0,
        res matches Err(e) ==> cmd_effect(books(old(accounts)@), *cmd).1 == Some(e),
        res is Ok ==> cmd_effect(books(old(accounts)@), *cmd).1 is None,
        keyed(old(accounts)@) ==> keyed(final(accounts)@),
    decreases cmd,
{
    match cmd {
        LedgerCommand::Deposit { user_id, asset, amount } => apply_single(accounts, *user_id, *asset, BalanceOp::Deposit(*amount)),
        LedgerCommand::Withdraw { user_id, asset, amount } => apply_single(accounts, *user_id, *asset, BalanceOp::Withdraw(*amount)),
        LedgerCommand::Lock { user_id, asset, amount } => apply_single(accounts, *user_id, *asset, BalanceOp::Lock(*amount)),
        LedgerCommand::Unlock { user_id, asset, amount } => apply_single(accounts, *user_id, *asset, BalanceOp::Unlock(*amount)),
        LedgerCommand::TradeSettle { user_id, spend_asset, spend_amount, gain_asset, gain_amount } =>
            apply_trade_settle(accounts, *user_id, *spend_asset, *spend_amount, *gain_asset, *gain_amount),
        LedgerCommand::MatchExec(d) => apply_match_exec(accounts, d),
        LedgerCommand::MatchExecBatch(ds) => apply_match_batch(accounts, ds),
        LedgerCommand::Batch(cmds) => {
            let ghost b0 = books(old(accounts)@);
            let mut i: usize = 0;
            proof { assert(cmds@.skip(0) =~= cmds@); }
            while i < cmds.len()
                invariant
                    i <= cmds.len(),
                    b0 == books(old(accounts)@),
                    *cmd == LedgerCommand::Batch(*cmds),
                    cmds_effect(books(accounts@), cmds@.skip(i as int)) == cmds_effect(b0, cmds@),
                    keyed(old(accounts)@) ==> keyed(accounts@),
                decreases cmds.len() - i,
            {
                proof {
                    assert(cmds@.skip(i as int).drop_first() =~= cmds@.skip(i + 1));
                    assert(cmds@.skip(i as int)[0] == cmds@[i as int]);
                    assert(decreases_to!(*cmd => *cmds));
                    assert(decreases_to!(*cmds => cmds@));
                    assert(decreases_to!(cmds@ => cmds@[i as int]));
                }
                let ghost cur = books(accounts@);
                let r = apply_transaction(accounts, &cmds[i]);
                proof {
                    let sk = cmds@.skip(i as int);
                    assert(sk.len() > 0);
                    assert(cmds_effect(cur, sk) == {
                        let (b1, r1) = cmd_effect(cur, sk[0]);
                        if r1 is Some { (b1, r1) } else { cmds_effect(b1, sk.drop_first()) }
                    });
                }
                if let Err(e) = r {
                    return Err(e);
                }
                i = i + 1;
            }
            Ok(())
        },
        LedgerCommand::OrderUpdate(_) => Ok(()),
    }
}


// ------------------------------------------------------------------
// Laws of the command semantics
// ------------------------------------------------------------------

/// A refused single-asset command (deposit, withdraw, lock, unlock) leaves
/// every balance of every user as it was.
pub proof fn lemma_refused_single_keeps_balances(b: Books, u: UserId, a: AssetId, op: BalanceOp, v: UserId, c: AssetId)
    requires
        single_effect(b, u, a, op).1 is Some,
    ensures
        bal(single_effect(b, u, a, op).0, v, c) == bal(b, v, c),
{
    if v == u {
        lemma_set_entry_read(acct(b, u), a, entry_balance(acct(b, u), a), c);
    }
}

/// A successful single-asset command changes exactly one balance, as the
/// balance operation says.
pub proof fn lemma_single_changes_one_balance(b: Books, u: UserId, a: AssetId, op: BalanceOp, v: UserId, c: AssetId)
    requires
        single_effect(b, u, a, op).1 is None,
    ensures
        op_result(bal(b, u, a), op) is Ok,
        bal(single_effect(b, u, a, op).0, v, c) == if v == u && c == a {
            op_result(bal(b, u, a), op)->Ok_0
        } else {
            bal(b, v, c)
        },
{
    if v == u {
        lemma_set_entry_read(acct(b, u), a, op_result(bal(b, u, a), op)->Ok_0, c);
    }
}

/// Locking and unlocking keep the user's total (available plus frozen) in
/// the asset.
pub proof fn lemma_lock_unlock_keep_total(b: Books, u: UserId, a: AssetId, x: u64)
    ensures
        single_effect(b, u, a, BalanceOp::Lock(x)).1 is None ==>
            crate::balance::total(bal(single_effect(b, u, a, BalanceOp::Lock(x)).0, u, a)) == crate::balance::total(bal(b, u, a)),
        single_effect(b, u, a, BalanceOp::Unlock(x)).1 is None ==>
            crate::balance::total(bal(single_effect(b, u, a, BalanceOp::Unlock(x)).0, u, a)) == crate::balance::total(bal(b, u, a)),
{
    if single_effect(b, u, a, BalanceOp::Lock(x)).1 is None {
        lemma_single_changes_one_balance(b, u, a, BalanceOp::Lock(x), u, a);
    }
    if single_effect(b, u, a, BalanceOp::Unlock(x)).1 is None {
        lemma_single_changes_one_balance(b, u, a, BalanceOp::Unlock(x), u, a);
    }
}

proof fn lemma_seq_op_read(s: Seq<(AssetId, Balance)>, a: AssetId, op: BalanceOp, c: AssetId)
    requires
        seq_op(s, a, op) is Ok,
    ensures
        entry_balance(seq_op(s, a, op)->Ok_0, c) == if c == a { op_result(entry_balance(s, a), op)->Ok_0 } else { entry_balance(s, c) },
{
    lemma_set_entry_read(s, a, op_result(entry_balance(s, a), op)->Ok_0, c);
}

/// Settling a trade between two different users in two different assets
/// moves funds without creating or destroying any: for each of the two
/// assets, the buyer's and the seller's totals add up to the same amount
/// before and after, and no other balance changes.
pub proof fn lemma_trade_conserves_funds(b: Books, d: MatchExecData, v: UserId, c: AssetId)
    requires
        match_effect(b, d).1 is None,
        d.buyer_user_id != d.seller_user_id,
        d.base_asset != d.quote_asset,
    ensures
        ({
            let n = match_effect(b, d).0;
            let (bu, se) = (d.buyer_user_id, d.seller_user_id);
            &&& crate::balance::total(bal(n, bu, d.base_asset)) + crate::balance::total(bal(n, se, d.base_asset))
                == crate::balance::total(bal(b, bu, d.base_asset)) + crate::balance::total(bal(b, se, d.base_asset))
            &&& crate::balance::total(bal(n, bu, d.quote_asset)) + crate::balance::total(bal(n, se, d.quote_asset))
                == crate::balance::total(bal(b, bu, d.quote_asset)) + crate::balance::total(bal(b, se, d.quote_asset))
            &&& (v != bu && v != se) || (c != d.base_asset && c != d.quote_asset) ==> bal(n, v, c) == bal(b, v, c)
        }),
{
    let q = (d.price * d.quantity) as u64;
    let sb0 = b[d.buyer_user_id];
    let s1 = seq_op(sb0, d.quote_asset, BalanceOp::SpendFrozen(q))->Ok_0;
    lemma_seq_op_read(sb0, d.quote_asset, BalanceOp::SpendFrozen(q), c);
    lemma_seq_op_read(sb0, d.quote_asset, BalanceOp::SpendFrozen(q), d.base_asset);
    lemma_seq_op_read(sb0, d.quote_asset, BalanceOp::SpendFrozen(q), d.quote_asset);
    let s2 = if d.buyer_refund > 0 { seq_op(s1, d.quote_asset, BalanceOp::Unlock(d.buyer_refund))->Ok_0 } else { s1 };
    if d.buyer_refund > 0 {
        lemma_seq_op_read(s1, d.quote_asset, BalanceOp::Unlock(d.buyer_refund), c);
        lemma_seq_op_read(s1, d.quote_asset, BalanceOp::Unlock(d.buyer_refund), d.base_asset);
        lemma_seq_op_read(s1, d.quote_asset, BalanceOp::Unlock(d.buyer_refund), d.quote_asset);
    }
    lemma_seq_op_read(s2, d.base_asset, BalanceOp::Deposit(d.quantity), c);
    lemma_seq_op_read(s2, d.base_asset, BalanceOp::Deposit(d.quantity), d.base_asset);
    lemma_seq_op_read(s2, d.base_asset, BalanceOp::Deposit(d.quantity), d.quote_asset);
    let ss0 = b[d.seller_user_id];
    let t1 = seq_op(ss0, d.base_asset, BalanceOp::SpendFrozen(d.quantity))->Ok_0;
    lemma_seq_op_read(ss0, d.base_asset, BalanceOp::SpendFrozen(d.quantity), c);
    lemma_seq_op_read(ss0, d.base_asset, BalanceOp::SpendFrozen(d.quantity), d.base_asset);
    lemma_seq_op_read(ss0, d.base_asset, BalanceOp::SpendFrozen(d.quantity), d.quote_asset);
    let t2 = if d.seller_refund > 0 { seq_op(t1, d.base_asset, BalanceOp::Unlock(d.seller_refund))->Ok_0 } else { t1 };
    if d.seller_refund > 0 {
        lemma_seq_op_read(t1, d.base_asset, BalanceOp::Unlock(d.seller_refund), c);
        lemma_seq_op_read(t1, d.base_asset, BalanceOp::Unlock(d.seller_refund), d.base_asset);
        lemma_seq_op_read(t1, d.base_asset, BalanceOp::Unlock(d.seller_refund), d.quote_asset);
    }
    lemma_seq_op_read(t2, d.quote_asset, BalanceOp::Deposit(q), c);
    lemma_seq_op_read(t2, d.quote_asset, BalanceOp::Deposit(q), d.base_asset);
    lemma_seq_op_read(t2, d.quote_asset, BalanceOp::Deposit(q), d.quote_asset);
}

/// An accepted one-sided settlement moves the user's funds as it says:
/// `spend_amount` leaves the frozen funds of the spent asset, the gained
/// asset's available funds rise by exactly `gain_amount` (whether or not
/// the user held that asset before) unless that would overflow, in which
/// case the gain is dropped, and no other balance changes. When the two
/// assets are the same, one balance loses the frozen amount and gains the
/// available one.
pub proof fn lemma_trade_settle_moves_funds(b: Books, u: UserId, spend: AssetId, x: u64, gain: AssetId, g: u64,
    v: UserId, c: AssetId)
    requires
        settle_effect(b, u, spend, x, gain, g).1 is None,
    ensures
        ({
            let n = settle_effect(b, u, spend, x, gain, g).0;
            let fits = bal(b, u, gain).avail + g <= u64::MAX;
            &&& bal(b, u, spend).frozen >= x
            &&& spend != gain ==> {
                &&& bal(n, u, spend).frozen == bal(b, u, spend).frozen - x
                &&& bal(n, u, spend).avail == bal(b, u, spend).avail
                &&& bal(n, u, gain).frozen == bal(b, u, gain).frozen
                &&& bal(n, u, gain).avail == if fits { bal(b, u, gain).avail + g } else { bal(b, u, gain).avail as int }
            }
            &&& spend == gain ==> {
                &&& bal(n, u, spend).frozen == bal(b, u, spend).frozen - x
                &&& bal(n, u, spend).avail == if fits { bal(b, u, spend).avail + g } else { bal(b, u, spend).avail as int }
            }
            &&& (v != u || (c != spend && c != gain)) ==> bal(n, v, c) == bal(b, v, c)
        }),
{
    let s = acct(b, u);
    let nb = op_result(entry_balance(s, spend), BalanceOp::SpendFrozen(x))->Ok_0;
    let s1 = set_entry(s, spend, nb);
    lemma_set_entry_read(s, spend, nb, c);
    lemma_set_entry_read(s, spend, nb, gain);
    lemma_set_entry_read(s, spend, nb, spend);
    match entry_index(s1, gain) {
        Some(_) => {
            match op_result(entry_balance(s1, gain), BalanceOp::Deposit(g)) {
                Ok(gb) => {
                    lemma_set_entry_read(s1, gain, gb, c);
                    lemma_set_entry_read(s1, gain, gb, gain);
                    lemma_set_entry_read(s1, gain, gb, spend);
                },
                Err(_) => {},
            }
        },
        None => {
            let gb = Balance { avail: g, frozen: 0, version: 1 };
            lemma_entry_index_facts(s1, gain);
            assert(set_entry(s1, gain, gb) == s1.push((gain, gb)));
            lemma_set_entry_read(s1, gain, gb, c);
            lemma_set_entry_read(s1, gain, gb, gain);
            lemma_set_entry_read(s1, gain, gb, spend);
        },
    }
}

/// A refused trade settlement changes nothing at all.
pub proof fn lemma_refused_trade_changes_nothing(b: Books, d: MatchExecData)
    requires
        match_effect(b, d).1 is Some,
    ensures
        match_effect(b, d).0 == b,
{
}


// ------------------------------------------------------------------
// Shadow semantics: commands applied to a private overlay
// ------------------------------------------------------------------

/// The books seen through a set of private changes: a user's entries come
/// from `delta` when it has them, otherwise from `base`.
pub open spec fn overlay(base: Books, delta: Books) -> Books {
    Map::new(|u: UserId| base.contains_key(u) || delta.contains_key(u),
        |u: UserId| if delta.contains_key(u) { delta[u] } else { base[u] })
}

/// The books with every user of `users` present (an unknown user gets an
/// empty account).
pub open spec fn pull(b: Books, users: Set<UserId>) -> Books {
    Map::new(|u: UserId| b.contains_key(u) || users.contains(u), |u: UserId| acct(b, u))
}

/// Users whose accounts a trade list touches.
pub open spec fn trade_users(ds: Seq<MatchExecData>) -> Set<UserId> {
    Set::new(|u: UserId| exists|i: int| 0 <= i < ds.len() && (ds[i].buyer_user_id == u || ds[i].seller_user_id == u))
}

/// Users whose accounts a (non-batch) command touches.
pub open spec fn cmd_users(c: LedgerCommand) -> Set<UserId> {
    match c {
        LedgerCommand::Deposit { user_id, .. } => set![user_id],
        LedgerCommand::Withdraw { user_id, .. } => set![user_id],
        LedgerCommand::Lock { user_id, .. } => set![user_id],
        LedgerCommand::Unlock { user_id, .. } => set![user_id],
        LedgerCommand::TradeSettle { user_id, .. } => set![user_id],
        LedgerCommand::MatchExec(d) => set![d.buyer_user_id, d.seller_user_id],
        LedgerCommand::MatchExecBatch(ds) => trade_users(ds@),
        LedgerCommand::Batch(_) => Set::empty(),
        LedgerCommand::OrderUpdate(_) => Set::empty(),
    }
}

/// Effect of a command on a shadow ledger: the accounts of the users it
/// names are first copied in (empty for unknown users), then the command
/// applies; a batch applies its commands one by one this way.
pub open spec fn shadow_effect(b: Books, c: LedgerCommand) -> (Books, Option<LedgerError>)
    decreases c,
{
    match c {
        LedgerCommand::Batch(cs) => shadow_cmds_effect(b, cs@),
        _ => cmd_effect(pull(b, cmd_users(c)), c),
    }
}

/// Commands applied to a shadow ledger in order, stopping at the first refusal.
pub open spec fn shadow_cmds_effect(b: Books, cs: Seq<LedgerCommand>) -> (Books, Option<LedgerError>)
    decreases cs,
{
    if cs.len() == 0 {
        (b, None)
    } else {
        let (b1, r) = shadow_effect(b, cs[0]);
        if r is Some { (b1, r) } else { shadow_cmds_effect(b1, cs.drop_first()) }
    }
}

/// A private copy added to the shadow shows through the overlay.
pub proof fn lemma_overlay_insert(base: Books, delta: Books, u: UserId, x: Seq<(AssetId, Balance)>)
    ensures
        overlay(base, delta.insert(u, x)) == overlay(base, delta).insert(u, x),
{
    assert(overlay(base, delta.insert(u, x)) =~= overlay(base, delta).insert(u, x));
}

proof fn lemma_match_frame(base: Books, delta: Books, d: MatchExecData)
    requires
        delta.contains_key(d.buyer_user_id),
        delta.contains_key(d.seller_user_id),
    ensures
        overlay(base, match_effect(delta, d).0) == match_effect(overlay(base, delta), d).0,
        match_effect(delta, d).1 == match_effect(overlay(base, delta), d).1,
        match_effect(delta, d).0.dom() == delta.dom(),
{
    let o = overlay(base, delta);
    assert(o[d.buyer_user_id] == delta[d.buyer_user_id]);
    assert(o[d.seller_user_id] == delta[d.seller_user_id]);
    if match_effect(delta, d).1 is None {
        let q = (d.price * d.quantity) as u64;
        let sb = buyer_settle(delta[d.buyer_user_id], d, q)->Ok_0;
        let b1 = delta.insert(d.buyer_user_id, sb);
        lemma_overlay_insert(base, delta, d.buyer_user_id, sb);
        assert(overlay(base, b1)[d.seller_user_id] == b1[d.seller_user_id]);
        let ss = seller_settle(b1[d.seller_user_id], d, q)->Ok_0;
        lemma_overlay_insert(base, b1, d.seller_user_id, ss);
        assert(b1.insert(d.seller_user_id, ss).dom() =~= delta.dom());
    } else if !(d.price * d.quantity > u64::MAX) {
        let q = (d.price * d.quantity) as u64;
        match buyer_settle(delta[d.buyer_user_id], d, q) {
            Err(_) => {},
            Ok(sb) => {
                let b1 = delta.insert(d.buyer_user_id, sb);
                lemma_overlay_insert(base, delta, d.buyer_user_id, sb);
                assert(overlay(base, b1)[d.seller_user_id] == b1[d.seller_user_id]);
            },
        }
    }
}

proof fn lemma_match_batch_frame(base: Books, delta: Books, ds: Seq<MatchExecData>)
    requires
        forall|u: UserId| trade_users(ds).contains(u) ==> delta.contains_key(u),
    ensures
        overlay(base, match_batch_effect(delta, ds).0) == match_batch_effect(overlay(base, delta), ds).0,
        match_batch_effect(delta, ds).1 == match_batch_effect(overlay(base, delta), ds).1,
    decreases ds.len(),
{
    if ds.len() > 0 {
        assert(trade_users(ds).contains(ds[0].buyer_user_id));
        assert(trade_users(ds).contains(ds[0].seller_user_id));
        lemma_match_frame(base, delta, ds[0]);
        let d1 = match_effect(delta, ds[0]).0;
        if match_effect(delta, ds[0]).1 is None {
            assert forall|u: UserId| trade_users(ds.drop_first()).contains(u) implies d1.contains_key(u) by {
                let i = choose|i: int| 0 <= i < ds.drop_first().len()
                    && (ds.drop_first()[i].buyer_user_id == u || ds.drop_first()[i].seller_user_id == u);
                assert(ds[i + 1] == ds.drop_first()[i]);
                assert(trade_users(ds).contains(u));
            }
            lemma_match_batch_frame(base, d1, ds.drop_first());
        }
    }
}

/// Applying a non-batch command to the private changes and then looking
/// through them is the same as applying it to the overlaid books, as long
/// as the private changes hold every account the command touches.
pub proof fn lemma_overlay_frame(base: Books, delta: Books, c: LedgerCommand)
    requires
        !(c is Batch),
        forall|u: UserId| cmd_users(c).contains(u) ==> delta.contains_key(u),
    ensures
        overlay(base, cmd_effect(delta, c).0) == cmd_effect(overlay(base, delta), c).0,
        cmd_effect(delta, c).1 == cmd_effect(overlay(base, delta), c).1,
{
    let o = overlay(base, delta);
    match c {
        LedgerCommand::Deposit { user_id, .. } | LedgerCommand::Withdraw { user_id, .. }
        | LedgerCommand::Lock { user_id, .. } | LedgerCommand::Unlock { user_id, .. }
        | LedgerCommand::TradeSettle { user_id, .. } => {
            assert(cmd_users(c).contains(user_id));
            assert(acct(o, user_id) == acct(delta, user_id));
            let x = cmd_effect(delta, c).0[user_id];
            assert(cmd_effect(delta, c).0 == delta.insert(user_id, x));
            lemma_overlay_insert(base, delta, user_id, x);
        },
        LedgerCommand::MatchExec(d) => {
            assert(cmd_users(c).contains(d.buyer_user_id));
            assert(cmd_users(c).contains(d.seller_user_id));
            lemma_match_frame(base, delta, d);
        },
        LedgerCommand::MatchExecBatch(ds) => {
            lemma_match_batch_frame(base, delta, ds@);
        },
        LedgerCommand::Batch(_) => {},
        LedgerCommand::OrderUpdate(_) => {},
    }
}

proof fn lemma_match_batch_keeps_domain(b: Books, ds: Seq<MatchExecData>)
    requires
        forall|u: UserId| trade_users(ds).contains(u) ==> b.contains_key(u),
    ensures
        match_batch_effect(b, ds).0.dom() == b.dom(),
    decreases ds.len(),
{
    if ds.len() > 0 {
        assert(trade_users(ds).contains(ds[0].buyer_user_id));
        assert(trade_users(ds).contains(ds[0].seller_user_id));
        lemma_match_frame(b, b, ds[0]);
        let d1 = match_effect(b, ds[0]).0;
        if match_effect(b, ds[0]).1 is None {
            assert forall|u: UserId| trade_users(ds.drop_first()).contains(u) implies d1.contains_key(u) by {
                let i = choose|i: int| 0 <= i < ds.drop_first().len()
                    && (ds.drop_first()[i].buyer_user_id == u || ds.drop_first()[i].seller_user_id == u);
                assert(ds[i + 1] == ds.drop_first()[i]);
                assert(trade_users(ds).contains(u));
            }
            lemma_match_batch_keeps_domain(d1, ds.drop_first());
        }
    }
}

/// A non-batch command whose accounts all exist adds no account.
pub proof fn lemma_cmd_effect_keeps_domain(b: Books, c: LedgerCommand)
    requires
        !(c is Batch),
        forall|u: UserId| cmd_users(c).contains(u) ==> b.contains_key(u),
    ensures
        cmd_effect(b, c).0.dom() == b.dom(),
{
    match c {
        LedgerCommand::Deposit { user_id, .. } | LedgerCommand::Withdraw { user_id, .. }
        | LedgerCommand::Lock { user_id, .. } | LedgerCommand::Unlock { user_id, .. }
        | LedgerCommand::TradeSettle { user_id, .. } => {
            assert(cmd_users(c).contains(user_id));
            assert(cmd_effect(b, c).0.dom() =~= b.dom());
        },
        LedgerCommand::MatchExec(d) => {
            assert(cmd_users(c).contains(d.buyer_user_id));
            assert(cmd_users(c).contains(d.seller_user_id));
            lemma_match_frame(b, b, d);
        },
        LedgerCommand::MatchExecBatch(ds) => {
            lemma_match_batch_keeps_domain(b, ds@);
        },
        LedgerCommand::Batch(_) => {},
        LedgerCommand::OrderUpdate(_) => {},
    }
}

// ------------------------------------------------------------------
// The global ledger
// ------------------------------------------------------------------

/// Why replaying a logged command during recovery fails.
#[derive(Debug, Clone, Copy, PartialEq, Eq, Structural)]
pub enum ReplayError {
    /// The log skips sequence numbers.
    Gap { expected: u64, found: u64 },
    /// The logged command is refused by the ledger.
    Refused(LedgerError),
}

/// The authoritative ledger: every user's accounts and the sequence number
/// of the last applied command. Only accepted commands go to the log, each
/// under the sequence number it was applied with (see `apply_logged`).
pub struct GlobalLedger {
    accounts: HashMap<UserId, UserAccount>,
    pub last_seq: u64,
}

impl View for GlobalLedger {
    type V = Books;

    closed spec fn view(&self) -> Books {
        books(self.accounts@)
    }
}

/// An independent copy of a user's asset list.
fn copy_assets(v: &Vec<(AssetId, Balance)>) -> (res: Vec<(AssetId, Balance)>)
    ensures
        res@ == v@,
{
    let mut out: Vec<(AssetId, Balance)> = Vec::new();
    let mut i: usize = 0;
    while i < v.len()
        invariant
            i <= v.len(),
            out@ == v@.take(i as int),
        decreases v.len() - i,
    {
        out.push(v[i]);
        i = i + 1;
        proof { assert(out@ =~= v@.take(i as int)); }
    }
    proof { assert(v@.take(v@.len() as int) =~= v@); }
    out
}

impl GlobalLedger {
    /// Sequence number of the last applied command.
    pub closed spec fn seq(&self) -> u64 {
        self.last_seq
    }

    /// Every account is stored under its own user.
    pub closed spec fn accounts_keyed(&self) -> bool {
        keyed(self.accounts@)
    }

    /// An empty ledger at sequence 0.
    pub fn new() -> (res: Self)
        ensures
            res@ == Map::<UserId, Seq<(AssetId, Balance)>>::empty(),
            res.seq() == 0,
            res.accounts_keyed(),
    {
        let accounts: HashMap<UserId, UserAccount> = HashMap::new();
        proof { assert(books(accounts@) =~= Map::<UserId, Seq<(AssetId, Balance)>>::empty()); }
        GlobalLedger { accounts, last_seq: 0 }
    }

    /// A ledger holding the given accounts, positioned after `last_seq`
    /// (for instance, as loaded from a snapshot).
    pub fn from_state(accounts: HashMap<UserId, UserAccount>, last_seq: u64) -> (res: Self)
        ensures
            res@ == books(accounts@),
            res.seq() == last_seq,
            res.accounts_keyed() == keyed(accounts@),
    {
        GlobalLedger { accounts, last_seq }
    }

    /// Available funds of a user in an asset (0 when unknown).
    pub fn get_balance(&self, user_id: UserId, asset_id: AssetId) -> (res: u64)
        ensures
            res == bal(self@, user_id, asset_id).avail,
    {
        match self.accounts.get(&user_id) {
            Some(a) => a.get_balance(asset_id).avail,
            None => 0,
        }
    }

    /// The full balance of a user in an asset (empty when unknown).
    pub fn get_balance_full(&self, user_id: UserId, asset_id: AssetId) -> (res: Balance)
        ensures
            res == bal(self@, user_id, asset_id),
    {
        match self.accounts.get(&user_id) {
            Some(a) => a.get_balance(asset_id),
            None => Balance { avail: 0, frozen: 0, version: 0 },
        }
    }

    /// A user's (asset, balance) entries, or `None` for an unknown user.
    pub fn get_user_balances(&self, user_id: UserId) -> (res: Option<Vec<(AssetId, Balance)>>)
        ensures
            match res {
                Some(v) => self@.contains_key(user_id) && v@ == self@[user_id],
                None => !self@.contains_key(user_id),
            },
    {
        match self.accounts.get(&user_id) {
            Some(a) => Some(copy_assets(&a.assets)),
            None => None,
        }
    }

    /// A copy of a user's account (a new empty one for an unknown user),
    /// owned by that user.
    pub fn get_account_copy(&self, user_id: UserId) -> (res: UserAccount)
        ensures
            res@ == acct(self@, user_id),
            res.user_id == user_id,
    {
        match self.accounts.get(&user_id) {
            Some(a) => UserAccount { user_id, assets: copy_assets(&a.assets) },
            None => UserAccount::new(user_id),
        }
    }

    /// Read access to the accounts.
    pub fn get_accounts(&self) -> (res: &HashMap<UserId, UserAccount>)
        ensures
            books(res@) == self@,
    {
        &self.accounts
    }

    /// Applies one command. The sequence number advances only when the
    /// command is accepted; only an accepted command is to be logged, under
    /// the new sequence number (as `apply_logged` does).
    pub fn apply(&mut self, cmd: &LedgerCommand) -> (res: Result<(), LedgerError>)
        requires
            old(self).seq() < u64::MAX,
        ensures
            final(self)@ == cmd_effect(old(self)@, *cmd).0,
            res matches Err(e) ==> cmd_effect(old(self)@, *cmd).1 == Some(e) && final(self).seq() == old(self).seq(),
            res is Ok ==> cmd_effect(old(self)@, *cmd).1 is None && final(self).seq() == old(self).seq() + 1,
            old(self).accounts_keyed() ==> final(self).accounts_keyed(),
    {
        apply_transaction(&mut self.accounts, cmd)?;
        self.last_seq = self.last_seq + 1;
        Ok(())
    }

    /// Applies one command and, only when it is accepted, appends it to
    /// `log` under its new sequence number: a refused command leaves the
    /// log as it was.
    pub fn apply_logged(&mut self, cmd: LedgerCommand, log: &mut Vec<(u64, LedgerCommand)>) -> (res: Result<(), LedgerError>)
        requires
            old(self).seq() < u64::MAX,
        ensures
            final(self)@ == cmd_effect(old(self)@, cmd).0,
            res matches Err(e) ==> cmd_effect(old(self)@, cmd).1 == Some(e) && final(self).seq() == old(self).seq()
                && final(log)@ == old(log)@,
            res is Ok ==> cmd_effect(old(self)@, cmd).1 is None && final(self).seq() == old(self).seq() + 1
                && final(log)@ == old(log)@.push((final(self).seq(), cmd)),
            old(self).accounts_keyed() ==> final(self).accounts_keyed(),
    {
        self.apply(&cmd)?;
        log.push((self.last_seq, cmd));
        Ok(())
    }

    /// Recovery: applies a logged command with sequence number `seq`.
    /// Commands at or below `last_seq` are already reflected and skipped; a
    /// command must otherwise carry exactly `last_seq + 1`.
    pub fn replay(&mut self, seq: u64, cmd: &LedgerCommand) -> (res: Result<(), ReplayError>)
        ensures
            seq <= old(self).seq() ==> res is Ok && final(self)@ == old(self)@ && final(self).seq() == old(self).seq(),
            seq > old(self).seq() && seq != old(self).seq() + 1 ==>
                res == Err::<(), ReplayError>(ReplayError::Gap { expected: (old(self).seq() + 1) as u64, found: seq })
                && final(self)@ == old(self)@ && final(self).seq() == old(self).seq(),
            seq == old(self).seq() + 1 ==> final(self)@ == cmd_effect(old(self)@, *cmd).0 && match cmd_effect(old(self)@, *cmd).1 {
                Some(e) => res == Err::<(), ReplayError>(ReplayError::Refused(e)) && final(self).seq() == old(self).seq(),
                None => res is Ok && final(self).seq() == seq,
            },
            old(self).accounts_keyed() ==> final(self).accounts_keyed(),
    {
        if seq <= self.last_seq {
            return Ok(());
        }
        if seq != self.last_seq + 1 {
            return Err(ReplayError::Gap { expected: self.last_seq + 1, found: seq });
        }
        match apply_transaction(&mut self.accounts, cmd) {
            Ok(()) => {
                self.last_seq = seq;
                Ok(())
            },
            Err(e) => Err(ReplayError::Refused(e)),
        }
    }
}


impl GlobalLedger {
    /// Recovery: replays the logged entries in order, as `replay` does for
    /// each, stopping at the first refusal.
    pub fn replay_log(&mut self, log: &Vec<(u64, LedgerCommand)>) -> (res: Result<(), ReplayError>)
        ensures
            replayed(old(self)@, old(self).seq(), log@) matches Some(r) ==> res is Ok && final(self)@ == r.0
                && final(self).seq() == r.1,
            replayed(old(self)@, old(self).seq(), log@) is None ==> res is Err,
            old(self).accounts_keyed() ==> final(self).accounts_keyed(),
    {
        let mut i: usize = 0;
        proof { assert(log@.skip(0) =~= log@); }
        while i < log.len()
            invariant
                i <= log.len(),
                replayed(self@, self.seq(), log@.skip(i as int)) == replayed(old(self)@, old(self).seq(), log@),
                old(self).accounts_keyed() ==> self.accounts_keyed(),
            decreases log.len() - i,
        {
            proof {
                assert(log@.skip(i as int)[0] == log@[i as int]);
                assert(log@.skip(i as int).drop_first() =~= log@.skip(i + 1));
            }
            let r = self.replay(log[i].0, &log[i].1);
            if let Err(e) = r {
                return Err(e);
            }
            i = i + 1;
        }
        proof { assert(log@.skip(log@.len() as int) =~= Seq::<(u64, LedgerCommand)>::empty()); }
        Ok(())
    }
}

// ------------------------------------------------------------------
// Shadow ledger
// ------------------------------------------------------------------

/// A temporary ledger that applies commands to private copies of the
/// accounts it touches (copied from the real ledger on first use), so that
/// a batch can be checked without changing the real ledger.
pub struct ShadowLedger<'a> {
    real_ledger: &'a GlobalLedger,
    delta_accounts: HashMap<UserId, UserAccount>,
    touched: Vec<UserId>,
}

impl<'a> ShadowLedger<'a> {
    /// The books as the shadow sees them: the private copies over the real ledger.
    pub closed spec fn view(&self) -> Books {
        overlay(self.real_ledger@, books(self.delta_accounts@))
    }

    /// The real ledger behind the shadow.
    pub closed spec fn base_books(&self) -> Books {
        self.real_ledger@
    }

    /// The private copies.
    pub closed spec fn delta_books(&self) -> Books {
        books(self.delta_accounts@)
    }

    /// Internal consistency: the list of touched users is exactly the set of
    /// private copies, without repetition.
    pub closed spec fn wf(&self) -> bool {
        &&& self.touched@.no_duplicates()
        &&& forall|u: UserId| self.touched@.contains(u) <==> self.delta_accounts@.contains_key(u)
    }

    /// A shadow with no private changes.
    pub fn new(real_ledger: &'a GlobalLedger) -> (res: Self)
        ensures
            res.wf(),
            res.view() == real_ledger@,
            res.base_books() == real_ledger@,
            res.delta_books() == Map::<UserId, Seq<(AssetId, Balance)>>::empty(),
    {
        let delta_accounts: HashMap<UserId, UserAccount> = HashMap::new();
        let res = ShadowLedger { real_ledger, delta_accounts, touched: Vec::new() };
        proof {
            assert(books(res.delta_accounts@) =~= Map::<UserId, Seq<(AssetId, Balance)>>::empty());
            assert(res.view() =~= real_ledger@);
        }
        res
    }

    /// Available funds of a user in an asset as the shadow sees them.
    pub fn get_balance(&self, user_id: UserId, asset_id: AssetId) -> (res: u64)
        ensures
            res == bal(self.view(), user_id, asset_id).avail,
    {
        match self.delta_accounts.get(&user_id) {
            Some(a) => a.get_balance(asset_id).avail,
            None => self.real_ledger.get_balance(user_id, asset_id),
        }
    }

    /// Copies a user's account in from the real ledger if not yet done.
    fn pull_user(&mut self, user_id: UserId)
        requires
            old(self).wf(),
        ensures
            final(self).wf(),
            final(self).real_ledger == old(self).real_ledger,
            final(self).view() == pull(old(self).view(), set![user_id]),
            final(self).delta_books().contains_key(user_id),
            forall|u: UserId| old(self).delta_books().contains_key(u) ==> final(self).delta_books().contains_key(u),
    {
        let ghost v0 = self.view();
        if !self.delta_accounts.contains_key(&user_id) {
            let a = self.real_ledger.get_account_copy(user_id);
            let ghost d0 = self.delta_accounts@;
            proof { lemma_books_insert(d0, user_id, a); }
            self.delta_accounts.insert(user_id, a);
            self.touched.push(user_id);
            proof {
                assert(self.view() =~= pull(v0, set![user_id]));
                assert forall|u: UserId| self.touched@.contains(u) <==> self.delta_accounts@.contains_key(u) by {
                    if u != user_id {
                        assert(self.touched@.contains(u) == old(self).touched@.contains(u)) by {
                            if self.touched@.contains(u) {
                                let k = choose|k: int| 0 <= k < self.touched@.len() && self.touched@[k] == u;
                                assert(k < old(self).touched@.len());
                                assert(old(self).touched@[k] == u);
                            }
                            if old(self).touched@.contains(u) {
                                let k = choose|k: int| 0 <= k < old(self).touched@.len() && old(self).touched@[k] == u;
                                assert(self.touched@[k] == u);
                            }
                        }
                    } else {
                        assert(self.touched@[self.touched@.len() - 1] == u);
                    }
                }
                assert(self.touched@.no_duplicates()) by {
                    assert forall|i: int, j: int| 0 <= i < j < self.touched@.len() implies self.touched@[i] != self.touched@[j] by {
                        if j == self.touched@.len() - 1 {
                            assert(old(self).touched@.contains(self.touched@[i]));
                        }
                    }
                }
            }
        } else {
            proof { assert(self.view() =~= pull(v0, set![user_id])); }
        }
    }

    /// Applies a command to the shadow: the accounts it touches are copied in
    /// first, then the command applies to the copies. A batch applies its
    /// commands one by one and stops at the first refusal.
    pub fn apply(&mut self, cmd: &LedgerCommand) -> (res: Result<(), LedgerError>)
        requires
            old(self).wf(),
        ensures
            final(self).wf(),
            final(self).base_books() == old(self).base_books(),
            final(self).view() == shadow_effect(old(self).view(), *cmd).0,
            res matches Err(e) ==> shadow_effect(old(self).view(), *cmd).1 == Some(e),
            res is Ok ==> shadow_effect(old(self).view(), *cmd).1 is None,
        decreases cmd,
    {
        let ghost v0 = self.view();
        match cmd {
            LedgerCommand::Batch(cmds) => {
                let mut i: usize = 0;
                proof { assert(cmds@.skip(0) =~= cmds@); }
                while i < cmds.len()
                    invariant
                        i <= cmds.len(),
                        self.wf(),
                        self.base_books() == old(self).base_books(),
                        *cmd == LedgerCommand::Batch(*cmds),
                        v0 == old(self).view(),
                        shadow_cmds_effect(self.view(), cmds@.skip(i as int)) == shadow_cmds_effect(v0, cmds@),
                    decreases cmds.len() - i,
                {
                    let ghost cur = self.view();
                    proof {
                        assert(cmds@.skip(i as int).drop_first() =~= cmds@.skip(i + 1));
                        assert(cmds@.skip(i as int)[0] == cmds@[i as int]);
                        assert(decreases_to!(*cmd => *cmds));
                        assert(decreases_to!(*cmds => cmds@));
                        assert(decreases_to!(cmds@ => cmds@[i as int]));
                    }
                    let r = self.apply(&cmds[i]);
                    if let Err(e) = r {
                        return Err(e);
                    }
                    i = i + 1;
                }
                Ok(())
            },
            _ => {
                let ghost users = cmd_users(*cmd);
                match cmd {
                    LedgerCommand::Deposit { user_id, .. } | LedgerCommand::Withdraw { user_id, .. }
                    | LedgerCommand::Lock { user_id, .. } | LedgerCommand::Unlock { user_id, .. }
                    | LedgerCommand::TradeSettle { user_id, .. } => {
                        self.pull_user(*user_id);
                        proof { assert(set![*user_id] =~= users); }
                    },
                    LedgerCommand::MatchExec(d) => {
                        self.pull_user(d.buyer_user_id);
                        let ghost v1 = self.view();
                        self.pull_user(d.seller_user_id);
                        proof {
                            assert(pull(pull(v0, set![d.buyer_user_id]), set![d.seller_user_id]) =~= pull(v0, users));
                        }
                    },
                    LedgerCommand::MatchExecBatch(ds) => {
                        let mut i: usize = 0;
                        proof { assert(pull(v0, Set::empty()) =~= v0); }
                        while i < ds.len()
                            invariant
                                i <= ds.len(),
                                self.wf(),
                                self.base_books() == old(self).base_books(),
                                self.view() == pull(v0, trade_users(ds@.take(i as int))),
                                forall|u: UserId| trade_users(ds@.take(i as int)).contains(u) ==> self.delta_books().contains_key(u),
                            decreases ds.len() - i,
                        {
                            let ghost vi = self.view();
                            self.pull_user(ds[i].buyer_user_id);
                            self.pull_user(ds[i].seller_user_id);
                            proof {
                                let p0 = ds@.take(i as int);
                                let p1 = ds@.take(i + 1);
                                let t0 = trade_users(p0);
                                let t1 = trade_users(p1);
                                assert forall|u: UserId| t1.contains(u) <==> (t0.contains(u) || u == ds@[i as int].buyer_user_id || u == ds@[i as int].seller_user_id) by {
                                    if t1.contains(u) {
                                        let k = choose|k: int| 0 <= k < p1.len() && (#[trigger] p1[k].buyer_user_id == u || p1[k].seller_user_id == u);
                                        if k < i {
                                            assert(p0[k] == p1[k]);
                                        }
                                    }
                                    if t0.contains(u) {
                                        let k = choose|k: int| 0 <= k < p0.len() && (#[trigger] p0[k].buyer_user_id == u || p0[k].seller_user_id == u);
                                        assert(p1[k] == p0[k]);
                                    }
                                    if u == ds@[i as int].buyer_user_id || u == ds@[i as int].seller_user_id {
                                        assert(p1[i as int] == ds@[i as int]);
                                    }
                                }
                                assert(self.view() =~= pull(v0, t1));
                            }
                            i = i + 1;
                        }
                        proof {
                            assert(ds@.take(ds@.len() as int) =~= ds@);
                        }
                    },
                    LedgerCommand::Batch(_) => {},
                    LedgerCommand::OrderUpdate(_) => {
                        proof { assert(pull(v0, Set::empty()) =~= v0); }
                    },
                }
                let ghost d1 = self.delta_books();
                proof {
                    lemma_overlay_frame(self.real_ledger@, d1, *cmd);
                }
                let r = apply_transaction(&mut self.delta_accounts, cmd);
                proof {
                    assert forall|u: UserId| self.touched@.contains(u) <==> self.delta_accounts@.contains_key(u) by {
                        assert(books(self.delta_accounts@).dom() =~= self.delta_accounts@.dom());
                        lemma_cmd_effect_keeps_domain(d1, *cmd);
                    }
                }
                r
            },
        }
    }

    /// The private copies, releasing the real ledger.
    pub fn into_delta(self) -> (res: HashMap<UserId, UserAccount>)
        ensures
            books(res@) == self.delta_books(),
    {
        self.delta_accounts
    }

    fn into_parts(self) -> (res: (HashMap<UserId, UserAccount>, Vec<UserId>))
        requires
            self.wf(),
        ensures
            books(res.0@) == self.delta_books(),
            res.1@.no_duplicates(),
            forall|u: UserId| res.1@.contains(u) <==> res.0@.contains_key(u),
    {
        (self.delta_accounts, self.touched)
    }
}


impl GlobalLedger {
    /// Applies a batch all or nothing: the commands are first applied in
    /// order to a shadow ledger; if any is refused the real ledger is left
    /// unchanged and the refusal returned, otherwise the shadow's changes
    /// are merged in and the sequence advances by the number of commands.
    pub fn commit_batch(&mut self, cmds: &Vec<LedgerCommand>) -> (res: Result<(), LedgerError>)
        requires
            old(self).seq() + cmds@.len() <= u64::MAX,
        ensures
            match shadow_cmds_effect(old(self)@, cmds@) {
                (n, None) => res is Ok && final(self)@ == n && final(self).seq() == old(self).seq() + cmds@.len(),
                (_, Some(e)) => res == Err::<(), LedgerError>(e) && final(self)@ == old(self)@
                    && final(self).seq() == old(self).seq(),
            },
            old(self).accounts_keyed() ==> final(self).accounts_keyed(),
    {
        let ghost b0 = self@;
        let (mut delta, touched) = {
            let mut shadow = ShadowLedger::new(&*self);
            let mut i: usize = 0;
            proof { assert(cmds@.skip(0) =~= cmds@); }
            while i < cmds.len()
                invariant
                    i <= cmds.len(),
                    shadow.wf(),
                    shadow.base_books() == b0,
                    shadow.view() == overlay(b0, shadow.delta_books()),
                    shadow_cmds_effect(shadow.view(), cmds@.skip(i as int)) == shadow_cmds_effect(b0, cmds@),
                    b0 == old(self)@,
                    self@ == b0,
                    self.seq() == old(self).seq(),
                    self.accounts == old(self).accounts,
                decreases cmds.len() - i,
            {
                let ghost cur = shadow.view();
                proof {
                    assert(cmds@.skip(i as int).drop_first() =~= cmds@.skip(i + 1));
                    assert(cmds@.skip(i as int)[0] == cmds@[i as int]);
                }
                let r = shadow.apply(&cmds[i]);
                proof {
                    shadow.lemma_view_is_overlay();
                    let sk = cmds@.skip(i as int);
                    assert(shadow_cmds_effect(cur, sk) == {
                        let (b1, r1) = shadow_effect(cur, sk[0]);
                        if r1 is Some { (b1, r1) } else { shadow_cmds_effect(b1, sk.drop_first()) }
                    });
                }
                if let Err(e) = r {
                    return Err(e);
                }
                i = i + 1;
            }
            proof { assert(cmds@.skip(cmds@.len() as int) =~= Seq::<LedgerCommand>::empty()); }
            shadow.into_parts()
        };
        let ghost d0 = books(delta@);
        let ghost target = overlay(b0, d0);
        let mut i: usize = 0;
        proof {
            assert(overlay(books(self.accounts@), books(delta@)) == target);
            assert forall|u: UserId| delta@.contains_key(u) <==> (exists|k: int| 0 <= k < touched@.len() && touched@[k] == u) by {
                if delta@.contains_key(u) {
                    assert(touched@.contains(u));
                }
                if exists|k: int| 0 <= k < touched@.len() && touched@[k] == u {
                    assert(touched@.contains(u));
                }
            }
        }
        while i < touched.len()
            invariant
                i <= touched.len(),
                touched@.no_duplicates(),
                overlay(books(self.accounts@), books(delta@)) == target,
                forall|u: UserId| delta@.contains_key(u) <==> (exists|k: int| i <= k < touched@.len() && touched@[k] == u),
                self.last_seq == old(self).last_seq,
                old(self).accounts_keyed() ==> keyed(self.accounts@),
            decreases touched.len() - i,
        {
            let u = touched[i];
            assert(delta@.contains_key(u));
            let ghost m0 = self.accounts@;
            let ghost dl = delta@;
            let a = match delta.remove(&u) {
                Some(a) => a,
                None => UserAccount::new(u),
            };
            let a = UserAccount { user_id: u, assets: a.assets };
            proof {
                lemma_books_insert(m0, u, a);
                lemma_books_remove(dl, u);
                assert(overlay(books(m0).insert(u, a@), books(dl).remove(u)) =~= overlay(books(m0), books(dl)));
                assert forall|w: UserId| delta@.contains_key(w) <==> (exists|k: int| i + 1 <= k < touched@.len() && touched@[k] == w) by {
                    if delta@.contains_key(w) {
                        let k = choose|k: int| i <= k < touched@.len() && touched@[k] == w;
                        assert(k != i);
                    }
                    if exists|k: int| i + 1 <= k < touched@.len() && touched@[k] == w {
                        let k = choose|k: int| i + 1 <= k < touched@.len() && touched@[k] == w;
                        assert(touched@[k] != touched@[i as int]);
                    }
                }
            }
            self.accounts.insert(u, a);
            i = i + 1;
        }
        proof {
            assert(books(delta@) =~= Map::<UserId, Seq<(AssetId, Balance)>>::empty()) by {
                assert forall|w: UserId| !delta@.contains_key(w) by {}
            }
            assert(overlay(books(self.accounts@), books(delta@)) =~= books(self.accounts@));
        }
        self.last_seq = self.last_seq + cmds.len() as u64;
        Ok(())
    }
}

impl<'a> ShadowLedger<'a> {
    /// The shadow's view is the real books overlaid with the private copies.
    pub proof fn lemma_view_is_overlay(&self)
        ensures
            self.view() == overlay(self.base_books(), self.delta_books()),
    {
    }
}

/// Books and sequence number after `apply` has been called with each of
/// `cmds` in order.
pub open spec fn applied(b: Books, q: u64, cmds: Seq<LedgerCommand>) -> (Books, u64)
    decreases cmds.len(),
{
    if cmds.len() == 0 {
        (b, q)
    } else {
        let (b1, r) = cmd_effect(b, cmds[0]);
        applied(b1, if r is None { (q + 1) as u64 } else { q }, cmds.drop_first())
    }
}

/// Every one of `cmds`, applied in order from `b`, is accepted.
pub open spec fn all_accepted(b: Books, cmds: Seq<LedgerCommand>) -> bool
    decreases cmds.len(),
{
    cmds.len() == 0 || (cmd_effect(b, cmds[0]).1 is None && all_accepted(cmd_effect(b, cmds[0]).0, cmds.drop_first()))
}

/// The log of those commands: each under the sequence number it was
/// applied with, counting on from `q`.
pub open spec fn numbered(q: u64, cmds: Seq<LedgerCommand>) -> Seq<(u64, LedgerCommand)> {
    Seq::new(cmds.len(), |i: int| ((q + 1 + i) as u64, cmds[i]))
}

/// Books and sequence number after `replay` has been called with each
/// logged entry in order, or `None` when one is refused.
pub open spec fn replayed(b: Books, q: u64, log: Seq<(u64, LedgerCommand)>) -> Option<(Books, u64)>
    decreases log.len(),
{
    if log.len() == 0 {
        Some((b, q))
    } else {
        let (seq, cmd) = log[0];
        if seq <= q {
            replayed(b, q, log.drop_first())
        } else if seq != q + 1 {
            None
        } else {
            let (b1, r) = cmd_effect(b, cmd);
            if r is None { replayed(b1, seq, log.drop_first()) } else { None }
        }
    }
}

proof fn lemma_applied_accepted(b: Books, q: u64, cmds: Seq<LedgerCommand>, k: int)
    requires
        all_accepted(b, cmds),
        q + cmds.len() <= u64::MAX,
        0 <= k <= cmds.len(),
    ensures
        all_accepted(b, cmds.take(k)),
        applied(b, q, cmds).1 == q + cmds.len(),
        applied(b, q, cmds.take(k)).1 == q + k,
    decreases cmds.len(),
{
    if cmds.len() > 0 {
        let b1 = cmd_effect(b, cmds[0]).0;
        lemma_applied_accepted(b1, (q + 1) as u64, cmds.drop_first(), if k > 0 { k - 1 } else { 0 });
        if k > 0 {
            assert(cmds.take(k)[0] == cmds[0]);
            assert(cmds.take(k).drop_first() =~= cmds.drop_first().take(k - 1));
        } else {
            assert(cmds.take(k).len() == 0);
        }
    }
}

/// Recovery gives back the state that was written: from a snapshot taken
/// after any number `k` of a run of accepted commands, replaying the whole
/// log of the run yields the books and sequence number that the run ended
/// with (`k == 0` is recovery from the log alone).
pub proof fn lemma_recovery(b0: Books, q0: u64, cmds: Seq<LedgerCommand>, k: int)
    requires
        all_accepted(b0, cmds),
        q0 + cmds.len() <= u64::MAX,
        0 <= k <= cmds.len(),
    ensures
        replayed(applied(b0, q0, cmds.take(k)).0, applied(b0, q0, cmds.take(k)).1, numbered(q0, cmds))
            == Some(applied(b0, q0, cmds)),
    decreases cmds.len(),
{
    lemma_applied_accepted(b0, q0, cmds, k);
    if cmds.len() > 0 {
        let b1 = cmd_effect(b0, cmds[0]).0;
        let rest = cmds.drop_first();
        let log = numbered(q0, cmds);
        assert(log.drop_first() =~= numbered((q0 + 1) as u64, rest));
        assert(log[0] == ((q0 + 1) as u64, cmds[0]));
        if k > 0 {
            assert(cmds.take(k)[0] == cmds[0]);
            assert(cmds.take(k).drop_first() =~= rest.take(k - 1));
            lemma_recovery(b1, (q0 + 1) as u64, rest, k - 1);
        } else {
            assert(cmds.take(k) =~= Seq::<LedgerCommand>::empty());
            assert(rest.take(0) =~= Seq::<LedgerCommand>::empty());
            lemma_recovery(b1, (q0 + 1) as u64, rest, 0);
        }
    }
}

/// Receives every command that the ledger accepts, in order (for instance
/// to feed a read model or a feed of balance events).
pub trait LedgerListener {
    /// The commands handed to this listener so far, oldest first.
    spec fn received(&self) -> Seq<LedgerCommand>;

    /// Takes one accepted command. An error is passed on to the caller of
    /// the ledger.
    fn on_command(&mut self, cmd: &LedgerCommand) -> (res: Result<(), LedgerError>)
        ensures
            final(self).received() == old(self).received().push(*cmd),
    ;
}

/// A listener that counts the commands it is handed (the count stops at
/// `u64::MAX`).
pub struct CommandCounter {
    count: u64,
    seen: Ghost<Seq<LedgerCommand>>,
}

impl CommandCounter {
    /// How many commands were counted.
    pub closed spec fn counted(&self) -> u64 {
        self.count
    }

    /// A counter that has seen nothing.
    pub fn new() -> (res: CommandCounter)
        ensures
            res.counted() == 0,
            res.received() == Seq::<LedgerCommand>::empty(),
    {
        CommandCounter { count: 0, seen: Ghost(Seq::empty()) }
    }

    /// How many commands were counted.
    pub fn count(&self) -> (res: u64)
        ensures
            res == self.counted(),
    {
        self.count
    }
}

impl LedgerListener for CommandCounter {
    closed spec fn received(&self) -> Seq<LedgerCommand> {
        self.seen@
    }

    fn on_command(&mut self, cmd: &LedgerCommand) -> (res: Result<(), LedgerError>)
        ensures
            res is Ok,
            final(self).counted() == if old(self).counted() < u64::MAX { (old(self).counted() + 1) as u64 } else { u64::MAX },
    {
        proof { self.seen@ = self.seen@.push(*cmd); }
        if self.count < u64::MAX {
            self.count = self.count + 1;
        }
        Ok(())
    }
}

impl GlobalLedger {
    /// Applies one command as `apply` does and, once the accounts have
    /// taken it, hands it to `listener`. A refused command reaches no
    /// listener. When the listener fails, its error is returned and the
    /// sequence number stays where it was, though the accounts already
    /// reflect the command.
    pub fn apply_with_listener<L: LedgerListener>(&mut self, cmd: &LedgerCommand, listener: &mut L) -> (res: Result<(), LedgerError>)
        requires
            old(self).seq() < u64::MAX,
        ensures
            final(self)@ == cmd_effect(old(self)@, *cmd).0,
            cmd_effect(old(self)@, *cmd).1 matches Some(e) ==> res == Err::<(), LedgerError>(e)
                && final(self).seq() == old(self).seq()
                && final(listener).received() == old(listener).received(),
            cmd_effect(old(self)@, *cmd).1 is None ==>
                final(listener).received() == old(listener).received().push(*cmd)
                && (res is Ok ==> final(self).seq() == old(self).seq() + 1)
                && (res is Err ==> final(self).seq() == old(self).seq()),
            old(self).accounts_keyed() ==> final(self).accounts_keyed(),
    {
        apply_transaction(&mut self.accounts, cmd)?;
        listener.on_command(cmd)?;
        self.last_seq = self.last_seq + 1;
        Ok(())
    }

    /// Commits a batch as `commit_batch` does and then hands each command,
    /// in order, to `listener`. A refused batch reaches no listener; a
    /// listener error stops the notifications and is returned, with the
    /// batch already committed.
    pub fn commit_batch_with_listener<L: LedgerListener>(&mut self, cmds: &Vec<LedgerCommand>, listener: &mut L) -> (res: Result<(), LedgerError>)
        requires
            old(self).seq() + cmds@.len() <= u64::MAX,
        ensures
            match shadow_cmds_effect(old(self)@, cmds@) {
                (n, None) => final(self)@ == n && final(self).seq() == old(self).seq() + cmds@.len()
                    && (res is Ok ==> final(listener).received() == old(listener).received() + cmds@)
                    && (res is Err ==> exists|k: int| 0 < k <= cmds@.len()
                        && final(listener).received() == old(listener).received() + cmds@.take(k)),
                (_, Some(e)) => res == Err::<(), LedgerError>(e) && final(self)@ == old(self)@
                    && final(self).seq() == old(self).seq()
                    && final(listener).received() == old(listener).received(),
            },
            old(self).accounts_keyed() ==> final(self).accounts_keyed(),
    {
        self.commit_batch(cmds)?;
        let ghost r0 = listener.received();
        let mut i: usize = 0;
        proof { assert(r0 + cmds@.take(0) =~= r0); }
        while i < cmds.len()
            invariant
                i <= cmds.len(),
                listener.received() == r0 + cmds@.take(i as int),
                r0 == old(listener).received(),
                shadow_cmds_effect(old(self)@, cmds@).1 is None,
                self@ == shadow_cmds_effect(old(self)@, cmds@).0,
                self.seq() == old(self).seq() + cmds@.len(),
                old(self).accounts_keyed() ==> self.accounts_keyed(),
            decreases cmds.len() - i,
        {
            let r = listener.on_command(&cmds[i]);
            proof { assert(r0 + cmds@.take(i as int).push(cmds@[i as int]) =~= r0 + cmds@.take(i + 1)); }
            if let Err(e) = r {
                proof { assert(0 < i + 1 <= cmds@.len() && listener.received() == r0 + cmds@.take(i + 1)); }
                return Err(e);
            }
            i = i + 1;
        }
        proof { assert(cmds@.take(cmds@.len() as int) =~= cmds@); }
        Ok(())
    }
}

/// What the engine needs of a ledger: read a balance, apply a command.
pub trait Ledger {
    /// Whether the ledger can take another command.
    spec fn can_apply(&self) -> bool;

    fn get_balance(&self, user_id: UserId, asset_id: AssetId) -> u64;

    fn apply(&mut self, cmd: &LedgerCommand) -> Result<(), LedgerError>
        requires
            old(self).can_apply(),
    ;
}

impl Ledger for GlobalLedger {
    /// The sequence number has room for one more command.
    open spec fn can_apply(&self) -> bool {
        self.seq() < u64::MAX
    }

    fn get_balance(&self, user_id: UserId, asset_id: AssetId) -> (res: u64)
        ensures
            res == bal(self@, user_id, asset_id).avail,
    {
        GlobalLedger::get_balance(self, user_id, asset_id)
    }

    fn apply(&mut self, cmd: &LedgerCommand) -> (res: Result<(), LedgerError>)
        ensures
            final(self)@ == cmd_effect(old(self)@, *cmd).0,
            res matches Err(e) ==> cmd_effect(old(self)@, *cmd).1 == Some(e) && final(self).seq() == old(self).seq(),
            res is Ok ==> cmd_effect(old(self)@, *cmd).1 is None && final(self).seq() == old(self).seq() + 1,
    {
        GlobalLedger::apply(self, cmd)
    }
}

impl<'a> Ledger for ShadowLedger<'a> {
    /// The shadow is well formed.
    open spec fn can_apply(&self) -> bool {
        self.wf()
    }

    fn get_balance(&self, user_id: UserId, asset_id: AssetId) -> (res: u64)
        ensures
            res == bal(self.view(), user_id, asset_id).avail,
    {
        ShadowLedger::get_balance(self, user_id, asset_id)
    }

    fn apply(&mut self, cmd: &LedgerCommand) -> (res: Result<(), LedgerError>)
        ensures
            final(self).wf(),
            final(self).base_books() == old(self).base_books(),
            final(self).view() == shadow_effect(old(self).view(), *cmd).0,
            res matches Err(e) ==> shadow_effect(old(self).view(), *cmd).1 == Some(e),
            res is Ok ==> shadow_effect(old(self).view(), *cmd).1 is None,
    {
        ShadowLedger::apply(self, cmd)
    }
}

} // verus!
