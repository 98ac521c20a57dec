//! Settling a trade against the balances the store holds: the version
//! checks that keep the store in step with the matching engine, and the
//! four balance rows a settled trade appends.

use vstd::prelude::*;
use crate::engine_output::BalanceEvent;

verus! {

/// A trade as the settlement service receives it, with the version each of
/// the four balances it touches reached in the matching engine.
#[derive(Debug, Clone, Copy, PartialEq, Eq, Structural)]
pub struct SettleTrade {
    pub trade_id: u64,
    pub buyer_user_id: u64,
    pub seller_user_id: u64,
    pub price: u64,
    pub quantity: u64,
    pub base_asset_id: u32,
    pub quote_asset_id: u32,
    pub buyer_refund: u64,
    pub seller_refund: u64,
    pub buyer_base_version: i64,
    pub buyer_quote_version: i64,
    pub seller_base_version: i64,
    pub seller_quote_version: i64,
}

/// A balance as the store holds it.
#[derive(Debug, Clone, Copy, PartialEq, Eq, Structural)]
pub struct StoredBalance {
    pub avail: i64,
    pub frozen: i64,
    pub version: i64,
}

/// Which of the trade's four balances.
#[derive(Debug, Clone, Copy, PartialEq, Eq, Structural)]
pub enum BalanceSide {
    BuyerBase,
    BuyerQuote,
    SellerBase,
    SellerQuote,
}

/// The kind of a balance row.
#[derive(Debug, Clone, Copy, PartialEq, Eq, Structural)]
pub enum RowKind {
    TradeCredit,
    TradeDebit,
}

impl RowKind {
    /// The name the store records.
    pub fn as_str(&self) -> (res: &'static str)
        ensures
            res@ == (match *self { RowKind::TradeCredit => "trade_credit"@, RowKind::TradeDebit => "trade_debit"@ }),
    {
        proof {
            reveal_strlit("trade_credit");
            reveal_strlit("trade_debit");
        }
        match self {
            RowKind::TradeCredit => "trade_credit",
            RowKind::TradeDebit => "trade_debit",
        }
    }
}

/// A balance row to append for a settled trade.
#[derive(Debug, Clone, Copy, PartialEq, Eq, Structural)]
pub struct BalanceRow {
    pub user_id: u64,
    pub asset_id: u32,
    pub version: i64,
    pub delta_avail: i64,
    pub delta_frozen: i64,
    pub avail: i64,
    pub frozen: i64,
    pub kind: RowKind,
    pub ref_id: u64,
}

/// Why a trade is not settled.
#[derive(Debug, Clone, Copy, PartialEq, Eq, Structural)]
pub enum SettleError {
    /// The store is ahead of the engine for this balance.
    VersionMismatch { side: BalanceSide, stored: i64, expected: i64 },
    /// The store lags more than one version behind the engine.
    VersionGap { side: BalanceSide, stored: i64, expected: i64 },
}

/// The check of one balance: its stored version must be the one the engine
/// sent, or the one before it.
pub open spec fn version_check(side: BalanceSide, stored: i64, expected: i64) -> Option<SettleError> {
    if stored >= expected {
        if stored != expected {
            Some(SettleError::VersionMismatch { side, stored, expected })
        } else {
            None
        }
    } else if stored != expected - 1 {
        Some(SettleError::VersionGap { side, stored, expected })
    } else {
        None
    }
}

/// The first failing check, in the order buyer base, buyer quote, seller
/// base, seller quote.
pub open spec fn settle_check(t: SettleTrade, bb: StoredBalance, bq: StoredBalance, sb: StoredBalance,
    sq: StoredBalance) -> Option<SettleError>
{
    if version_check(BalanceSide::BuyerBase, bb.version, t.buyer_base_version) is Some {
        version_check(BalanceSide::BuyerBase, bb.version, t.buyer_base_version)
    } else if version_check(BalanceSide::BuyerQuote, bq.version, t.buyer_quote_version) is Some {
        version_check(BalanceSide::BuyerQuote, bq.version, t.buyer_quote_version)
    } else if version_check(BalanceSide::SellerBase, sb.version, t.seller_base_version) is Some {
        version_check(BalanceSide::SellerBase, sb.version, t.seller_base_version)
    } else {
        version_check(BalanceSide::SellerQuote, sq.version, t.seller_quote_version)
    }
}

/// Which balances of a settlement are out of step with the engine, and
/// how: a settlement goes ahead exactly when each of the four stored
/// versions equals the engine's version or the one before it; otherwise the
/// first balance out of step, in the order buyer base, buyer quote, seller
/// base, seller quote, is reported, as a mismatch when the store is ahead
/// and as a gap when it lags by more than one.
pub proof fn lemma_settlement_version_rule(t: SettleTrade, bb: StoredBalance, bq: StoredBalance, sb: StoredBalance,
    sq: StoredBalance)
    ensures
        ({
            let ok_bb = bb.version == t.buyer_base_version || bb.version == t.buyer_base_version - 1;
            let ok_bq = bq.version == t.buyer_quote_version || bq.version == t.buyer_quote_version - 1;
            let ok_sb = sb.version == t.seller_base_version || sb.version == t.seller_base_version - 1;
            let ok_sq = sq.version == t.seller_quote_version || sq.version == t.seller_quote_version - 1;
            let r = settle_check(t, bb, bq, sb, sq);
            &&& (r is None <==> ok_bb && ok_bq && ok_sb && ok_sq)
            &&& !ok_bb ==> r == Some(if bb.version > t.buyer_base_version {
                    SettleError::VersionMismatch { side: BalanceSide::BuyerBase, stored: bb.version, expected: t.buyer_base_version }
                } else {
                    SettleError::VersionGap { side: BalanceSide::BuyerBase, stored: bb.version, expected: t.buyer_base_version }
                })
            &&& ok_bb && !ok_bq ==> r == Some(if bq.version > t.buyer_quote_version {
                    SettleError::VersionMismatch { side: BalanceSide::BuyerQuote, stored: bq.version, expected: t.buyer_quote_version }
                } else {
                    SettleError::VersionGap { side: BalanceSide::BuyerQuote, stored: bq.version, expected: t.buyer_quote_version }
                })
            &&& ok_bb && ok_bq && !ok_sb ==> r == Some(if sb.version > t.seller_base_version {
                    SettleError::VersionMismatch { side: BalanceSide::SellerBase, stored: sb.version, expected: t.seller_base_version }
                } else {
                    SettleError::VersionGap { side: BalanceSide::SellerBase, stored: sb.version, expected: t.seller_base_version }
                })
            &&& ok_bb && ok_bq && ok_sb && !ok_sq ==> r == Some(if sq.version > t.seller_quote_version {
                    SettleError::VersionMismatch { side: BalanceSide::SellerQuote, stored: sq.version, expected: t.seller_quote_version }
                } else {
                    SettleError::VersionGap { side: BalanceSide::SellerQuote, stored: sq.version, expected: t.seller_quote_version }
                })
        }),
{
}

/// The quote amount of a trade, `price * quantity`, as the store's signed
/// 64-bit amount (wrapping).
pub open spec fn quote_amount(t: SettleTrade) -> i64 {
    ((t.price * t.quantity) as u64) as i64
}

/// The base amount of a trade as the store's signed 64-bit amount
/// (wrapping).
pub open spec fn base_amount(t: SettleTrade) -> i64 {
    t.quantity as i64
}

/// The four rows a settled trade appends: the buyer gains base and spends
/// frozen quote, the seller spends frozen base and gains quote. A balance
/// with a refund moves two versions.
pub open spec fn settle_rows(t: SettleTrade, bb: StoredBalance, bq: StoredBalance, sb: StoredBalance,
    sq: StoredBalance) -> Seq<BalanceRow>
{
    let q = base_amount(t);
    let qa = quote_amount(t);
    seq![
        BalanceRow {
            user_id: t.buyer_user_id, asset_id: t.base_asset_id, version: (bb.version + 1) as i64,
            delta_avail: q, delta_frozen: 0, avail: (bb.avail + q) as i64, frozen: bb.frozen,
            kind: RowKind::TradeCredit, ref_id: t.trade_id,
        },
        BalanceRow {
            user_id: t.buyer_user_id, asset_id: t.quote_asset_id,
            version: (bq.version + if t.buyer_refund > 0 { 2int } else { 1int }) as i64,
            delta_avail: 0, delta_frozen: (-qa) as i64, avail: (bq.avail - qa) as i64,
            frozen: (bq.frozen - qa) as i64, kind: RowKind::TradeDebit, ref_id: t.trade_id,
        },
        BalanceRow {
            user_id: t.seller_user_id, asset_id: t.base_asset_id,
            version: (sb.version + if t.seller_refund > 0 { 2int } else { 1int }) as i64,
            delta_avail: 0, delta_frozen: (-q) as i64, avail: (sb.avail - q) as i64,
            frozen: (sb.frozen - q) as i64, kind: RowKind::TradeDebit, ref_id: t.trade_id,
        },
        BalanceRow {
            user_id: t.seller_user_id, asset_id: t.quote_asset_id, version: (sq.version + 1) as i64,
            delta_avail: qa, delta_frozen: 0, avail: (sq.avail + qa) as i64, frozen: sq.frozen,
            kind: RowKind::TradeCredit, ref_id: t.trade_id,
        },
    ]
}

/// The rows of a settled trade move funds between the two parties without
/// creating any: the buyer is credited the trade quantity of base, which
/// leaves the seller's frozen base; the seller is credited price times
/// quantity of quote, which leaves the buyer's frozen quote. Each row is of
/// the trade, names its user and asset, and advances its balance's version
/// by one, or by two where a refund moved it too.
pub proof fn lemma_settlement_rows_move_funds(t: SettleTrade, bb: StoredBalance, bq: StoredBalance, sb: StoredBalance,
    sq: StoredBalance)
    requires
        t.price * t.quantity <= i64::MAX,
        t.quantity <= i64::MAX,
        bb.avail + t.quantity <= i64::MAX,
        sq.avail + t.price * t.quantity <= i64::MAX,
        i64::MIN <= bq.frozen - t.price * t.quantity,
        i64::MIN <= bq.avail - t.price * t.quantity,
        i64::MIN <= sb.frozen - t.quantity,
        i64::MIN <= sb.avail - t.quantity,
        bb.version + 1 <= i64::MAX,
        bq.version + 2 <= i64::MAX,
        sb.version + 2 <= i64::MAX,
        sq.version + 1 <= i64::MAX,
    ensures
        ({
            let r = settle_rows(t, bb, bq, sb, sq);
            let cost = t.price * t.quantity;
            &&& r.len() == 4
            &&& r[0].user_id == t.buyer_user_id && r[0].asset_id == t.base_asset_id
            &&& r[1].user_id == t.buyer_user_id && r[1].asset_id == t.quote_asset_id
            &&& r[2].user_id == t.seller_user_id && r[2].asset_id == t.base_asset_id
            &&& r[3].user_id == t.seller_user_id && r[3].asset_id == t.quote_asset_id
            &&& forall|i: int| 0 <= i < 4 ==> (#[trigger] r[i]).ref_id == t.trade_id
            &&& r[0].delta_avail == t.quantity && r[0].delta_frozen == 0 && r[0].avail == bb.avail + t.quantity
                && r[0].frozen == bb.frozen
            &&& r[2].delta_avail == 0 && r[2].delta_frozen == -t.quantity && r[2].frozen == sb.frozen - t.quantity
            &&& r[3].delta_avail == cost && r[3].delta_frozen == 0 && r[3].avail == sq.avail + cost
                && r[3].frozen == sq.frozen
            &&& r[1].delta_avail == 0 && r[1].delta_frozen == -cost && r[1].frozen == bq.frozen - cost
            &&& r[0].delta_avail + r[2].delta_frozen == 0
            &&& r[3].delta_avail + r[1].delta_frozen == 0
            &&& r[0].version == bb.version + 1 && r[3].version == sq.version + 1
            &&& r[1].version == bq.version + (if t.buyer_refund > 0 { 2int } else { 1int })
            &&& r[2].version == sb.version + (if t.seller_refund > 0 { 2int } else { 1int })
            &&& r[0].kind == RowKind::TradeCredit && r[3].kind == RowKind::TradeCredit
            &&& r[1].kind == RowKind::TradeDebit && r[2].kind == RowKind::TradeDebit
        }),
{
    let r = settle_rows(t, bb, bq, sb, sq);
    assert(quote_amount(t) == t.price * t.quantity);
    assert(base_amount(t) == t.quantity);
    assert forall|i: int| 0 <= i < 4 implies (#[trigger] r[i]).ref_id == t.trade_id by {}
}

fn check_version(side: BalanceSide, stored: i64, expected: i64) -> (res: Result<(), SettleError>)
    ensures
        match version_check(side, stored, expected) {
            Some(e) => res == Err::<(), SettleError>(e),
            None => res is Ok,
        },
{
    if stored >= expected {
        if stored != expected {
            return Err(SettleError::VersionMismatch { side, stored, expected });
        }
    } else if (stored as i128) != (expected as i128) - 1 {
        return Err(SettleError::VersionGap { side, stored, expected });
    }
    Ok(())
}

/// Plans the settlement of a trade from the four stored balances it
/// touches: refused when a stored version is ahead of the engine's or lags
/// more than one behind (checked in the order buyer base, buyer quote,
/// seller base, seller quote); otherwise the four rows to append.
pub fn settlement_plan(t: &SettleTrade, buyer_base: StoredBalance, buyer_quote: StoredBalance,
    seller_base: StoredBalance, seller_quote: StoredBalance) -> (res: Result<[BalanceRow; 4], SettleError>)
    requires
        t.price * t.quantity <= u64::MAX,
        i64::MIN <= buyer_base.avail + base_amount(*t) <= i64::MAX,
        i64::MIN <= buyer_quote.avail - quote_amount(*t) <= i64::MAX,
        i64::MIN <= seller_base.avail - base_amount(*t) <= i64::MAX,
        i64::MIN <= seller_quote.avail + quote_amount(*t) <= i64::MAX,
        settle_check(*t, buyer_base, buyer_quote, seller_base, seller_quote) is None ==> {
            &&& buyer_base.version + 1 <= i64::MAX
            &&& buyer_quote.version + 2 <= i64::MAX
            &&& seller_base.version + 2 <= i64::MAX
            &&& seller_quote.version + 1 <= i64::MAX
            &&& i64::MIN <= buyer_quote.frozen - quote_amount(*t) <= i64::MAX
            &&& i64::MIN <= seller_base.frozen - base_amount(*t) <= i64::MAX
            &&& i64::MIN < quote_amount(*t)
            &&& i64::MIN < base_amount(*t)
        },
    ensures
        match settle_check(*t, buyer_base, buyer_quote, seller_base, seller_quote) {
            Some(e) => res == Err::<[BalanceRow; 4], SettleError>(e),
            None => res matches Ok(rows)
                && rows@ == settle_rows(*t, buyer_base, buyer_quote, seller_base, seller_quote),
        },
        res is Ok <==> {
            &&& buyer_base.version == t.buyer_base_version || buyer_base.version == t.buyer_base_version - 1
            &&& buyer_quote.version == t.buyer_quote_version || buyer_quote.version == t.buyer_quote_version - 1
            &&& seller_base.version == t.seller_base_version || seller_base.version == t.seller_base_version - 1
            &&& seller_quote.version == t.seller_quote_version || seller_quote.version == t.seller_quote_version - 1
        },
{
    proof { lemma_settlement_version_rule(*t, buyer_base, buyer_quote, seller_base, seller_quote); }
    let product: u64 = t.price * t.quantity;
    let qa: i64 = product as i64;
    let q: i64 = t.quantity as i64;
    let new_buyer_base: i64 = buyer_base.avail + q;
    let new_buyer_quote: i64 = buyer_quote.avail - qa;
    let new_seller_base: i64 = seller_base.avail - q;
    let new_seller_quote: i64 = seller_quote.avail + qa;

    check_version(BalanceSide::BuyerBase, buyer_base.version, t.buyer_base_version)?;
    check_version(BalanceSide::BuyerQuote, buyer_quote.version, t.buyer_quote_version)?;
    check_version(BalanceSide::SellerBase, seller_base.version, t.seller_base_version)?;
    check_version(BalanceSide::SellerQuote, seller_quote.version, t.seller_quote_version)?;

    let buyer_quote_inc: i64 = if t.buyer_refund > 0 { 2 } else { 1 };
    let seller_base_inc: i64 = if t.seller_refund > 0 { 2 } else { 1 };

    let rows = [
        BalanceRow {
            user_id: t.buyer_user_id, asset_id: t.base_asset_id, version: buyer_base.version + 1,
            delta_avail: q, delta_frozen: 0, avail: new_buyer_base, frozen: buyer_base.frozen,
            kind: RowKind::TradeCredit, ref_id: t.trade_id,
        },
        BalanceRow {
            user_id: t.buyer_user_id, asset_id: t.quote_asset_id, version: buyer_quote.version + buyer_quote_inc,
            delta_avail: 0, delta_frozen: -qa, avail: new_buyer_quote, frozen: buyer_quote.frozen - qa,
            kind: RowKind::TradeDebit, ref_id: t.trade_id,
        },
        BalanceRow {
            user_id: t.seller_user_id, asset_id: t.base_asset_id, version: seller_base.version + seller_base_inc,
            delta_avail: 0, delta_frozen: -q, avail: new_seller_base, frozen: seller_base.frozen - q,
            kind: RowKind::TradeDebit, ref_id: t.trade_id,
        },
        BalanceRow {
            user_id: t.seller_user_id, asset_id: t.quote_asset_id, version: seller_quote.version + 1,
            delta_avail: qa, delta_frozen: 0, avail: new_seller_quote, frozen: seller_quote.frozen,
            kind: RowKind::TradeCredit, ref_id: t.trade_id,
        },
    ];
    assert(rows@ =~= settle_rows(*t, buyer_base, buyer_quote, seller_base, seller_quote));
    Ok(rows)
}


/// Two balance events touch the same balance: same user, same asset.
pub open spec fn same_balance(a: BalanceEvent, b: BalanceEvent) -> bool {
    a.user_id == b.user_id && a.asset_id == b.asset_id
}

/// Among the first `n` events, `events[k]` is the one whose balances are
/// stored for its user and asset: no event of that balance has a higher
/// sequence number, and none before it has the same.
pub open spec fn kept_among(events: Seq<BalanceEvent>, n: int, k: int) -> bool {
    &&& 0 <= k < n
    &&& forall|j: int| 0 <= j < n && #[trigger] same_balance(events[j], events[k])
        ==> events[j].seq < events[k].seq || (events[j].seq == events[k].seq && k <= j)
}

/// Position in `res` of the event that touches the same balance as
/// `events[j]`, or the length of `res` when none does.
fn find_same_balance(events: &Vec<BalanceEvent>, res: &Vec<usize>, j: usize) -> (p: usize)
    requires
        j < events@.len(),
        forall|i: int| 0 <= i < res@.len() ==> #[trigger] res@[i] < events@.len(),
    ensures
        p <= res@.len(),
        p < res@.len() ==> same_balance(events@[res@[p as int] as int], events@[j as int]),
        forall|i: int| 0 <= i < p ==> !same_balance(events@[#[trigger] res@[i] as int], events@[j as int]),
{
    let mut p: usize = 0;
    while p < res.len()
        invariant
            p <= res@.len(),
            j < events@.len(),
            forall|i: int| 0 <= i < res@.len() ==> #[trigger] res@[i] < events@.len(),
            forall|i: int| 0 <= i < p ==> !same_balance(events@[#[trigger] res@[i] as int], events@[j as int]),
        decreases res@.len() - p,
    {
        let k = res[p];
        if events[k].user_id == events[j].user_id && events[k].asset_id == events[j].asset_id {
            return p;
        }
        p = p + 1;
    }
    p
}

/// `res` picks, among the first `n` events, one kept event per balance met,
/// each balance once, every balance met covered.
pub open spec fn picks_latest(events: Seq<BalanceEvent>, res: Seq<usize>, n: int) -> bool {
    &&& forall|i: int| 0 <= i < res.len() ==> kept_among(events, n, #[trigger] res[i] as int)
    &&& forall|i: int, i2: int| 0 <= i < i2 < res.len()
        ==> !same_balance(events[#[trigger] res[i] as int], events[#[trigger] res[i2] as int])
    &&& forall|jj: int| #![trigger events[jj]] 0 <= jj < n ==> exists|i: int| 0 <= i < res.len()
        && same_balance(events[#[trigger] res[i] as int], #[trigger] events[jj])
}

#[verifier::spinoff_prover]
#[verifier::rlimit(40)]
proof fn lemma_pick_new_balance(events: Seq<BalanceEvent>, res: Seq<usize>, j: int)
    requires
        0 <= j < events.len(),
        j <= usize::MAX,
        picks_latest(events, res, j),
        forall|i: int| 0 <= i < res.len() ==> !same_balance(events[#[trigger] res[i] as int], events[j]),
    ensures
        picks_latest(events, res.push(j as usize), j + 1),
{
    let r2 = res.push(j as usize);
    assert forall|jj: int| 0 <= jj < j implies !#[trigger] same_balance(events[jj], events[j]) by {
        let i = choose|i: int| 0 <= i < res.len() && same_balance(events[#[trigger] res[i] as int], #[trigger] events[jj]);
        assert(!same_balance(events[res[i] as int], events[j]));
    }
    assert forall|i: int| 0 <= i < r2.len() implies kept_among(events, j + 1, #[trigger] r2[i] as int) by {
        if i < res.len() {
            assert(r2[i] == res[i]);
            assert(kept_among(events, j, res[i] as int));
            assert(!same_balance(events[j], events[res[i] as int]));
        }
    }
    assert forall|i: int, i2: int| 0 <= i < i2 < r2.len()
        implies !same_balance(events[#[trigger] r2[i] as int], events[#[trigger] r2[i2] as int]) by {
        if i2 < res.len() {
            assert(r2[i] == res[i] && r2[i2] == res[i2]);
        } else {
            assert(r2[i] == res[i]);
        }
    }
    assert forall|jj: int| 0 <= jj < j + 1 implies exists|i: int| 0 <= i < r2.len()
        && same_balance(events[#[trigger] r2[i] as int], #[trigger] events[jj]) by {
        if jj == j {
            assert(r2[res.len() as int] == j);
            assert(same_balance(events[r2[res.len() as int] as int], events[jj]));
        } else {
            let i = choose|i: int| 0 <= i < res.len() && same_balance(events[#[trigger] res[i] as int], #[trigger] events[jj]);
            assert(r2[i] == res[i]);
        }
    }
}

#[verifier::spinoff_prover]
#[verifier::rlimit(40)]
proof fn lemma_pick_known_balance(events: Seq<BalanceEvent>, res: Seq<usize>, j: int, p: int)
    requires
        0 <= j < events.len(),
        j <= usize::MAX,
        picks_latest(events, res, j),
        0 <= p < res.len(),
        same_balance(events[res[p] as int], events[j]),
    ensures
        picks_latest(events, if events[res[p] as int].seq < events[j].seq { res.update(p, j as usize) } else { res }, j + 1),
{
    let k = res[p] as int;
    let replace = events[k].seq < events[j].seq;
    let r2 = if replace { res.update(p, j as usize) } else { res };
    assert(kept_among(events, j, k));
    assert forall|i: int| 0 <= i < r2.len() implies kept_among(events, j + 1, #[trigger] r2[i] as int) by {
        if i != p {
            assert(r2[i] == res[i]);
            assert(kept_among(events, j, res[i] as int));
            if p < i {
                assert(!same_balance(events[res[p] as int], events[res[i] as int]));
            } else {
                assert(!same_balance(events[res[i] as int], events[res[p] as int]));
            }
            assert(!same_balance(events[j], events[res[i] as int]));
        } else if replace {
            assert forall|jj: int| 0 <= jj < j + 1 && #[trigger] same_balance(events[jj], events[j])
                implies events[jj].seq < events[j].seq || (events[jj].seq == events[j].seq && j <= jj) by {
                if jj < j {
                    assert(same_balance(events[jj], events[k]));
                }
            }
        } else {
            assert(same_balance(events[j], events[k]));
        }
    }
    assert forall|i: int, i2: int| 0 <= i < i2 < r2.len()
        implies !same_balance(events[#[trigger] r2[i] as int], events[#[trigger] r2[i2] as int]) by {
        assert(!same_balance(events[res[i] as int], events[res[i2] as int]));
    }
    assert forall|jj: int| 0 <= jj < j + 1 implies exists|i: int| 0 <= i < r2.len()
        && same_balance(events[#[trigger] r2[i] as int], #[trigger] events[jj]) by {
        if jj == j {
            assert(same_balance(events[r2[p] as int], events[jj]));
        } else {
            let i = choose|i: int| 0 <= i < res.len() && same_balance(events[#[trigger] res[i] as int], #[trigger] events[jj]);
            if i == p {
                assert(same_balance(events[r2[p] as int], events[jj]));
            } else {
                assert(r2[i] == res[i]);
            }
        }
    }
}

/// The events whose balances are written to the balance snapshot table:
/// one index per (user, asset) met in `events`, pointing at the event with
/// the highest sequence number for it (the first of those when several
/// share it).
pub fn latest_balance_events(events: &Vec<BalanceEvent>) -> (res: Vec<usize>)
    ensures
        picks_latest(events@, res@, events@.len() as int),
{
    let mut res: Vec<usize> = Vec::new();
    let mut j: usize = 0;
    while j < events.len()
        invariant
            j <= events@.len(),
            picks_latest(events@, res@, j as int),
        decreases events@.len() - j,
    {
        let p = find_same_balance(events, &res, j);
        if p == res.len() {
            proof { lemma_pick_new_balance(events@, res@, j as int); }
            res.push(j);
        } else {
            proof { lemma_pick_known_balance(events@, res@, j as int, p as int); }
            let k = res[p];
            if events[k].seq < events[j].seq {
                res.set(p, j);
            }
        }
        j = j + 1;
    }
    res
}


/// A settled trade as the trade store keeps it (signed columns).
#[derive(Debug, Clone, Copy, PartialEq, Eq, Structural)]
pub struct SettledTradeRow {
    pub trade_date: i32,
    pub output_sequence: i64,
    pub trade_id: i64,
    pub match_seq: i64,
    pub buy_order_id: i64,
    pub sell_order_id: i64,
    pub buyer_user_id: i64,
    pub seller_user_id: i64,
    pub price: i64,
    pub quantity: i64,
    pub base_asset_id: i32,
    pub quote_asset_id: i32,
    pub buyer_refund: i64,
    pub seller_refund: i64,
    pub settled_at: i64,
    pub buyer_base_version: i64,
    pub buyer_quote_version: i64,
    pub seller_base_version: i64,
    pub seller_quote_version: i64,
    pub buyer_base_balance_after: i64,
    pub buyer_quote_balance_after: i64,
    pub seller_base_balance_after: i64,
    pub seller_quote_balance_after: i64,
}

/// One appended row of the balance ledger.
#[derive(Debug, Clone)]
pub struct BalanceLedgerEntry {
    pub user_id: i64,
    pub asset_id: i32,
    pub seq: i64,
    pub delta_avail: i64,
    pub delta_frozen: i64,
    pub avail: i64,
    pub frozen: i64,
    pub event_type: String,
    pub ref_id: i64,
    pub created_at: i64,
}

/// The latest balance of a user in an asset, as the ledger rows give it.
#[derive(Debug, Clone, Copy, PartialEq, Eq, Structural)]
pub struct CurrentBalance {
    pub seq: i64,
    pub avail: i64,
    pub frozen: i64,
    pub updated_at: i64,
}

/// A balance of the balance snapshot table.
#[derive(Debug, Clone, Copy, PartialEq, Eq, Structural)]
pub struct UserBalance {
    pub user_id: u64,
    pub asset_id: u32,
    pub avail: u64,
    pub frozen: u64,
    pub version: u64,
    pub updated_at: u64,
}

/// A settled trade as the analytics store takes it.
#[derive(Debug, Clone)]
pub struct StarRocksTrade {
    pub trade_id: i64,
    pub match_seq: i64,
    pub buy_order_id: i64,
    pub sell_order_id: i64,
    pub buy_user_id: i64,
    pub sell_user_id: i64,
    pub price: i64,
    pub quantity: i64,
    pub trade_date: String,
    pub settled_at: String,
}

} // verus!
