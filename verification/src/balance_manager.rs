//! Conversion of client-facing decimal amounts into the integer amounts the
//! exchange keeps, by the decimals of each asset.

use std::collections::HashMap;
use vstd::prelude::*;
use crate::symbol_manager::{AssetInfo, SymbolManager};
use crate::text::str_equals;

verus! {

broadcast use vstd::std_specs::hash::group_hash_axioms;

/// The id of an asset listed under `name`, if any.
fn asset_id_by_name(assets: &HashMap<u32, AssetInfo>, name: &str) -> (res: Option<u32>)
    ensures
        match res {
            Some(id) => assets@.contains_key(id) && assets@[id].symbol@ == name@,
            None => forall|id: u32| #[trigger] assets@.contains_key(id) ==> assets@[id].symbol@ != name@,
        },
{
    for kv in it: assets.iter()
        invariant
            forall|j: int| 0 <= j < it.index() ==> (*(#[trigger] it.seq()[j]).1).symbol@ != name@,
    {
        let (k, v) = kv;
        if str_equals(v.symbol.as_str(), name) {
            return Some(*k);
        }
    }
    None
}

/// Why a client amount is not taken.
#[derive(Debug, Clone, PartialEq, Eq)]
pub enum AmountError {
    /// No asset is listed under the name.
    UnknownAsset(String),
    /// The amount has more decimal places (trailing zeros aside) than the
    /// asset is kept with.
    TooPrecise { scale: u32, max: u32 },
    /// Ten to the asset's decimals does not fit in 64 bits.
    DecimalsTooLarge,
    /// The amount is negative, or above what 64 bits hold, in the asset's
    /// units.
    OutOfRange,
}

/// Ten to the `k`.
pub open spec fn pow10(k: nat) -> nat
    decreases k,
{
    if k == 0 { 1 } else { 10 * pow10((k - 1) as nat) }
}

/// A decimal's digits and scale with trailing zeros removed (scale 0 for
/// zero).
pub open spec fn normalized(digits: nat, scale: nat) -> (nat, nat)
    decreases scale,
{
    if scale > 0 && digits % 10 == 0 {
        normalized(digits / 10, (scale - 1) as nat)
    } else {
        (digits, scale)
    }
}

/// The magnitude of a mantissa.
pub open spec fn magnitude(m: i128) -> nat {
    if m < 0 { (-m) as nat } else { m as nat }
}

/// The amount `mantissa / 10^scale` in units of `10^-decimals`, taken
/// when it has at most `decimals` places, ten to the decimals fits in 64
/// bits, and the result is neither negative nor above `u64::MAX`.
pub open spec fn amount_result(mantissa: i128, scale: u32, decimals: u32) -> Result<u64, AmountError> {
    let n = normalized(magnitude(mantissa), scale as nat);
    if n.1 > decimals {
        Err(AmountError::TooPrecise { scale: n.1 as u32, max: decimals })
    } else if pow10(decimals as nat) > u64::MAX {
        Err(AmountError::DecimalsTooLarge)
    } else {
        let raw = n.0 * pow10((decimals - n.1) as nat);
        if (mantissa < 0 && raw > 0) || raw > u64::MAX {
            Err(AmountError::OutOfRange)
        } else {
            Ok(raw as u64)
        }
    }
}

/// Whether a mantissa and scale make a decimal that can be held (96-bit
/// mantissa, at most 28 places) and, converted to `decimals` places,
/// stays below 2^96 (beyond that the decimal product overflows).
pub open spec fn amount_in_range(mantissa: i128, scale: u32, decimals: u32) -> bool {
    let n = normalized(magnitude(mantissa), scale as nat);
    &&& magnitude(mantissa) < 0x1_0000_0000_0000_0000_0000_0000
    &&& scale <= 28
    &&& (n.1 <= decimals && decimals <= 19) ==> n.0 * pow10((decimals - n.1) as nat) < 0x1_0000_0000_0000_0000_0000_0000
}

proof fn lemma_pow10_pos(a: nat)
    ensures
        1 <= pow10(a),
    decreases a,
{
    if a > 0 {
        lemma_pow10_pos((a - 1) as nat);
    }
}

proof fn lemma_pow10_mono(a: nat, b: nat)
    requires
        a <= b,
    ensures
        1 <= pow10(a) <= pow10(b),
    decreases b,
{
    lemma_pow10_pos(a);
    if b > a {
        lemma_pow10_mono(a, (b - 1) as nat);
    }
}

/// Ten to the `k`, when it fits in 64 bits.
fn pow10_u64(k: u32) -> (res: Option<u64>)
    ensures
        match res {
            Some(p) => p == pow10(k as nat),
            None => pow10(k as nat) > u64::MAX,
        },
{
    let mut p: u64 = 1;
    let mut i: u32 = 0;
    while i < k
        invariant
            i <= k,
            p == pow10(i as nat),
        decreases k - i,
    {
        match p.checked_mul(10) {
            Some(q) => {
                p = q;
                i = i + 1;
            },
            None => {
                proof { lemma_pow10_mono((i + 1) as nat, k as nat); }
                return None;
            },
        }
    }
    Some(p)
}

/// Converts an amount `mantissa / 10^scale` into units of `10^-decimals`.
pub fn internal_amount(mantissa: i128, scale: u32, decimals: u32) -> (res: Result<u64, AmountError>)
    requires
        amount_in_range(mantissa, scale, decimals),
    ensures
        res == amount_result(mantissa, scale, decimals),
{
    let mag: u128 = if mantissa < 0 { (-(mantissa + 1)) as u128 + 1 } else { mantissa as u128 };
    assert(mag == magnitude(mantissa));
    let mut digits: u128 = mag;
    let mut places: u32 = scale;
    while places > 0 && digits % 10 == 0
        invariant
            normalized(digits as nat, places as nat) == normalized(mag as nat, scale as nat),
        decreases places,
    {
        digits = digits / 10;
        places = places - 1;
    }
    assert(normalized(digits as nat, places as nat) == (digits as nat, places as nat));
    if places > decimals {
        return Err(AmountError::TooPrecise { scale: places, max: decimals });
    }
    let full = pow10_u64(decimals);
    if full.is_none() {
        return Err(AmountError::DecimalsTooLarge);
    }
    let mult = match pow10_u64(decimals - places) {
        Some(p) => p,
        None => {
            proof { lemma_pow10_mono((decimals - places) as nat, decimals as nat); }
            return Err(AmountError::DecimalsTooLarge);
        },
    };
    proof { lemma_pow10_mono((decimals - places) as nat, decimals as nat); }
    if digits > u64::MAX as u128 {
        assert(digits * mult >= digits) by (nonlinear_arith) requires mult >= 1;
        return Err(AmountError::OutOfRange);
    }
    assert(digits * mult <= u64::MAX * u64::MAX) by (nonlinear_arith)
        requires digits <= u64::MAX, mult <= u64::MAX;
    let raw: u128 = digits * (mult as u128);
    if (mantissa < 0 && raw > 0) || raw > u64::MAX as u128 {
        return Err(AmountError::OutOfRange);
    }
    Ok(raw as u64)
}

/// Stripping trailing zeros takes `k` of them: the digits left, times ten
/// to the `k`, give the digits back.
proof fn lemma_normalized_scales(digits: nat, scale: nat)
    ensures
        normalized(digits, scale).1 <= scale,
        normalized(digits, scale).0 * pow10((scale - normalized(digits, scale).1) as nat) == digits,
    decreases scale,
{
    if scale > 0 && digits % 10 == 0 {
        lemma_normalized_scales(digits / 10, (scale - 1) as nat);
        let n = normalized(digits / 10, (scale - 1) as nat);
        let k = (scale - 1 - n.1) as nat;
        assert(pow10((k + 1) as nat) == 10 * pow10(k));
        assert(n.0 * pow10((k + 1) as nat) == 10 * (n.0 * pow10(k))) by (nonlinear_arith)
            requires pow10((k + 1) as nat) == 10 * pow10(k);
        assert((scale - n.1) as nat == (k + 1) as nat);
        assert(normalized(digits, scale) == n);
        assert(n.0 * pow10(k) == digits / 10);
        assert(digits == 10 * (digits / 10));
        assert(pow10((scale - n.1) as nat) == pow10((k + 1) as nat));
        assert(n.0 * pow10((scale - n.1) as nat) == digits);
    } else {
        assert(normalized(digits, scale) == (digits, scale));
        assert(pow10(0) == 1);
        assert(digits * pow10(0) == digits);
    }
}

/// The round trip of amounts: an integer amount of an asset, read as a
/// decimal with the asset's decimals, converts back to the same amount.
pub proof fn lemma_amount_round_trip(raw: u64, decimals: u32)
    requires
        pow10(decimals as nat) <= u64::MAX,
    ensures
        amount_result(raw as i128, decimals, decimals) == Ok::<u64, AmountError>(raw),
{
    assert(magnitude(raw as i128) == raw as nat);
    lemma_normalized_scales(raw as nat, decimals as nat);
}

/// A balance of an asset in integer units.
#[derive(Debug, Clone, Copy)]
pub struct InternalBalance {
    pub asset_id: u32,
    pub balance: crate::balance::Balance,
}

/// Converts between client-facing decimal amounts and the integer
/// amounts kept for each asset.
pub struct BalanceManager {
    pub symbol_manager: SymbolManager,
}

/// The outcome `to_internal_amount` gives for the asset `id`.
pub open spec fn amount_for(res: Result<(u32, u64), AmountError>, id: u32, r: Result<u64, AmountError>) -> bool {
    match r {
        Ok(raw) => res == Ok::<(u32, u64), AmountError>((id, raw)),
        Err(e) => res == Err::<(u32, u64), AmountError>(e),
    }
}

impl BalanceManager {
    pub fn new(symbol_manager: SymbolManager) -> (res: BalanceManager)
        ensures
            res.symbol_manager == symbol_manager,
    {
        BalanceManager { symbol_manager }
    }

    /// Converts an amount `mantissa / 10^scale` of the asset listed as
    /// `asset` into the asset's integer units: refused for an unknown
    /// asset, otherwise as `amount_result` gives for the asset's decimals.
    pub fn to_internal_amount(&self, asset: &str, mantissa: i128, scale: u32)
        -> (res: Result<(u32, u64), AmountError>)
        requires
            forall|id: u32| #[trigger] self.symbol_manager.assets@.contains_key(id)
                && self.symbol_manager.assets@[id].symbol@ == asset@
                ==> amount_in_range(mantissa, scale, self.symbol_manager.assets@[id].decimals),
        ensures
            match res {
                Err(AmountError::UnknownAsset(name)) => name@ == asset@
                    && forall|id: u32| #[trigger] self.symbol_manager.assets@.contains_key(id)
                        ==> self.symbol_manager.assets@[id].symbol@ != asset@,
                _ => exists|id: u32| #[trigger] self.symbol_manager.assets@.contains_key(id)
                    && self.symbol_manager.assets@[id].symbol@ == asset@
                    && amount_for(res, id, amount_result(mantissa, scale, self.symbol_manager.assets@[id].decimals)),
            },
    {
        let id = match asset_id_by_name(&self.symbol_manager.assets, asset) {
            Some(id) => id,
            None => return Err(AmountError::UnknownAsset(crate::text::owned(asset))),
        };
        let decimals = match self.symbol_manager.assets.get(&id) {
            Some(a) => a.decimals,
            None => return Err(AmountError::UnknownAsset(crate::text::owned(asset))),
        };
        match internal_amount(mantissa, scale, decimals) {
            Ok(raw) => Ok((id, raw)),
            Err(e) => Err(e),
        }
    }

    /// An integer amount of an asset as a client-facing decimal, given as
    /// (mantissa, scale): the amount over ten to the asset's decimals.
    /// `None` for an unknown asset, or when ten to its decimals does not fit
    /// in 64 bits. (Amounts are shown with all the asset's decimals.)
    pub fn to_client_amount(&self, asset_id: u32, amount: u64) -> (res: Option<(u64, u32)>)
        ensures
            !self.symbol_manager.assets@.contains_key(asset_id) ==> res is None,
            self.symbol_manager.assets@.contains_key(asset_id) ==> {
                let d = self.symbol_manager.assets@[asset_id].decimals;
                &&& pow10(d as nat) > u64::MAX ==> res is None
                &&& pow10(d as nat) <= u64::MAX ==> res == Some((amount, d))
            },
    {
        let decimals = match self.symbol_manager.get_asset_decimal(asset_id) {
            Some(d) => d,
            None => return None,
        };
        match pow10_u64(decimals) {
            Some(_) => Some((amount, decimals)),
            None => None,
        }
    }
}

} // verus!
