//! Account kinds and statuses of internal transfers.

use vstd::prelude::*;
use crate::text::str_equals;

verus! {

/// What `str::to_uppercase` gives for a text: the Unicode upper-case mapping
/// of every character, in order.
pub uninterp spec fn upper_case_of(s: Seq<char>) -> Seq<char>;

/// Wrapper of `str::to_uppercase`, whose result depends on the text alone.
#[verifier::external_body]
pub(crate) fn upper_case(s: &str) -> (res: String)
    ensures
        res@ == upper_case_of(s@),
{
    s.to_uppercase()
}

/// An account on one side of an internal transfer.
#[derive(Debug, Clone, PartialEq, Eq)]
pub enum AccountType {
    /// The funding account of an asset (user id 0 by default).
    Funding { asset: String, user_id: u64 },
    /// A user's spot trading account.
    Spot { user_id: u64, asset: String },
}

/// The asset text stored in an account.
pub open spec fn account_asset(a: AccountType) -> Seq<char> {
    match a {
        AccountType::Funding { asset, .. } => asset@,
        AccountType::Spot { asset, .. } => asset@,
    }
}

/// The ledger account id: user id in the high 64 bits, asset id in the low bits.
/// A funding account always uses user id 0.
pub open spec fn spec_tb_account_id(a: AccountType, asset_id: u32) -> nat {
    match a {
        AccountType::Funding { .. } => asset_id as nat,
        AccountType::Spot { user_id, .. } => (user_id as nat) * 0x1_0000_0000_0000_0000nat + asset_id as nat,
    }
}

/// Ledger account id of a user's account for an asset: the user id in the
/// high 64 bits, the asset id in the low bits.
pub fn tb_account_id(user_id: u64, asset_id: u32) -> (res: u128)
    ensures
        res as nat == (user_id as nat) * 0x1_0000_0000_0000_0000nat + asset_id as nat,
{
    let hi: u128 = (user_id as u128) << 64u32;
    let res: u128 = hi | (asset_id as u128);
    assert(((user_id as u128) << 64u32) == (user_id as u128) * 0x1_0000_0000_0000_0000u128) by (bit_vector);
    assert(hi | (asset_id as u128) == hi + (asset_id as u128)) by (bit_vector)
        requires hi == (user_id as u128) * 0x1_0000_0000_0000_0000u128, asset_id < 0x1_0000_0000u64;
    res
}

impl AccountType {
    /// The account's asset, upper-cased.
    pub fn asset(&self) -> (res: String)
        ensures
            res@ == upper_case_of(account_asset(*self)),
    {
        match self {
            AccountType::Funding { asset, .. } => upper_case(asset.as_str()),
            AccountType::Spot { asset, .. } => upper_case(asset.as_str()),
        }
    }

    /// The ledger account id for the given asset id (user id 0 for funding).
    pub fn to_tb_account_id(&self, asset_id: u32) -> (res: u128)
        ensures
            res as nat == spec_tb_account_id(*self, asset_id),
    {
        match self {
            AccountType::Funding { .. } => tb_account_id(0, asset_id),
            AccountType::Spot { user_id, .. } => tb_account_id(*user_id, asset_id),
        }
    }

    /// "funding" or "spot".
    pub fn account_type_name(&self) -> (res: &'static str)
        ensures
            res@ == (match *self {
                AccountType::Funding { .. } => "funding"@,
                AccountType::Spot { .. } => "spot"@,
            }),
    {
        match self {
            AccountType::Funding { .. } => "funding",
            AccountType::Spot { .. } => "spot",
        }
    }

    /// The owning user: 0 for a funding account, the user id for a spot account.
    pub fn user_id(&self) -> (res: Option<u64>)
        ensures
            res == (match *self {
                AccountType::Funding { .. } => Some(0u64),
                AccountType::Spot { user_id, .. } => Some(user_id),
            }),
    {
        match self {
            AccountType::Funding { .. } => Some(0),
            AccountType::Spot { user_id, .. } => Some(*user_id),
        }
    }
}

/// Status of an internal transfer.
#[derive(Debug, Clone, Copy, PartialEq, Eq, Structural)]
pub enum TransferStatus {
    Requesting,
    Pending,
    Success,
    Failed,
}

/// Text name of a status.
pub open spec fn status_name(s: TransferStatus) -> Seq<char> {
    match s {
        TransferStatus::Requesting => "requesting"@,
        TransferStatus::Pending => "pending"@,
        TransferStatus::Success => "success"@,
        TransferStatus::Failed => "failed"@,
    }
}

impl TransferStatus {
    /// The status's text name.
    pub fn as_str(&self) -> (res: &'static str)
        ensures
            res@ == status_name(*self),
    {
        match self {
            TransferStatus::Requesting => "requesting",
            TransferStatus::Pending => "pending",
            TransferStatus::Success => "success",
            TransferStatus::Failed => "failed",
        }
    }

    /// Parses a status from its text name; `None` for any other text.
    pub fn from_str(s: &str) -> (res: Option<TransferStatus>)
        ensures
            match res {
                Some(st) => status_name(st) == s@,
                None => forall|st: TransferStatus| status_name(st) != s@,
            },
    {
        if str_equals(s, "requesting") {
            Some(TransferStatus::Requesting)
        } else if str_equals(s, "pending") {
            Some(TransferStatus::Pending)
        } else if str_equals(s, "success") {
            Some(TransferStatus::Success)
        } else if str_equals(s, "failed") {
            Some(TransferStatus::Failed)
        } else {
            None
        }
    }

    /// Success and Failed are terminal.
    pub fn is_terminal(&self) -> (res: bool)
        ensures
            res == (*self == TransferStatus::Success || *self == TransferStatus::Failed),
    {
        matches!(self, TransferStatus::Success | TransferStatus::Failed)
    }
}

/// Internal transfer data as reported back to clients.
#[derive(Debug, Clone)]
pub struct InternalTransferData {
    pub request_id: String,
    pub from_account: AccountType,
    pub to_account: AccountType,
    pub amount: String,
    pub status: TransferStatus,
    pub created_at: i64,
}

/// A transfer request row as kept in the database.
#[derive(Debug, Clone)]
pub struct TransferRequestRecord {
    pub request_id: i64,
    pub from_account_type: String,
    pub from_user_id: Option<i64>,
    pub from_asset_id: i32,
    pub to_account_type: String,
    pub to_user_id: Option<i64>,
    pub to_asset_id: i32,
    pub amount: i64,
    pub status: String,
    pub created_at: i64,
    pub updated_at: i64,
    pub pending_transfer_id: Option<i64>,
    pub posted_transfer_id: Option<i64>,
    pub processor: Option<String>,
    pub error_message: Option<String>,
}

/// Distinct (user, asset) pairs have distinct ledger account ids.
pub proof fn lemma_tb_account_id_injective(u1: u64, a1: u32, u2: u64, a2: u32)
    ensures
        (u1 as nat) * 0x1_0000_0000_0000_0000nat + a1 as nat == (u2 as nat) * 0x1_0000_0000_0000_0000nat + a2 as nat
            ==> u1 == u2 && a1 == a2,
{
    if (u1 as nat) * 0x1_0000_0000_0000_0000nat + a1 as nat == (u2 as nat) * 0x1_0000_0000_0000_0000nat + a2 as nat {
        assert(u1 == u2 && a1 == a2) by (nonlinear_arith)
            requires
                (u1 as nat) * 0x1_0000_0000_0000_0000nat + a1 as nat == (u2 as nat) * 0x1_0000_0000_0000_0000nat + a2 as nat,
                a1 < 0x1_0000_0000_0000_0000nat,
                a2 < 0x1_0000_0000_0000_0000nat;
    }
}

} // verus!
