//! Orders, trades, their sides, kinds and statuses, and order errors.

use vstd::prelude::*;
use crate::text::{owned, str_equals, u64_text, nat_text};

verus! {

/// Side of an order.
#[derive(Debug, Clone, Copy, PartialEq, Eq, Hash, Structural)]
pub enum Side {
    Buy,
    Sell,
}

/// Wire code of a side.
pub open spec fn side_code(s: Side) -> u8 {
    match s {
        Side::Buy => 1,
        Side::Sell => 2,
    }
}

/// Display name of a side.
pub open spec fn side_name(s: Side) -> Seq<char> {
    match s {
        Side::Buy => "Buy"@,
        Side::Sell => "Sell"@,
    }
}

impl Side {
    /// The wire code: 1 for buy, 2 for sell.
    pub fn as_u8(&self) -> (res: u8)
        ensures
            res == side_code(*self),
    {
        match self {
            Side::Buy => 1,
            Side::Sell => 2,
        }
    }

    /// The side with the given wire code, if any.
    pub fn from_u8(v: u8) -> (res: Option<Side>)
        ensures
            match res {
                Some(s) => side_code(s) == v,
                None => v != 1 && v != 2,
            },
    {
        match v {
            1 => Some(Side::Buy),
            2 => Some(Side::Sell),
            _ => None,
        }
    }

    /// The display name, "Buy" or "Sell".
    pub fn to_string(&self) -> (res: String)
        ensures
            res@ == side_name(*self),
    {
        match self {
            Side::Buy => owned("Buy"),
            Side::Sell => owned("Sell"),
        }
    }

    /// Parses a display name; any other text is refused with a message.
    pub fn from_str(s: &str) -> (res: Result<Side, String>)
        ensures
            match res {
                Ok(side) => side_name(side) == s@,
                Err(msg) => s@ != "Buy"@ && s@ != "Sell"@ && msg@ == "Unknown side: "@ + s@,
            },
    {
        if str_equals(s, "Buy") {
            Ok(Side::Buy)
        } else if str_equals(s, "Sell") {
            Ok(Side::Sell)
        } else {
            Err(owned("Unknown side: ").concat(s))
        }
    }
}

/// Kind of an order.
#[derive(Debug, Clone, Copy, PartialEq, Eq, Structural)]
pub enum OrderType {
    Limit,
    Market,
}

/// Wire code of an order kind.
pub open spec fn order_type_code(t: OrderType) -> u8 {
    match t {
        OrderType::Limit => 1,
        OrderType::Market => 2,
    }
}

/// Display name of an order kind.
pub open spec fn order_type_name(t: OrderType) -> Seq<char> {
    match t {
        OrderType::Limit => "Limit"@,
        OrderType::Market => "Market"@,
    }
}

impl OrderType {
    /// The wire code: 1 for limit, 2 for market.
    pub fn as_u8(&self) -> (res: u8)
        ensures
            res == order_type_code(*self),
    {
        match self {
            OrderType::Limit => 1,
            OrderType::Market => 2,
        }
    }

    /// The order kind with the given wire code, if any.
    pub fn from_u8(v: u8) -> (res: Option<OrderType>)
        ensures
            match res {
                Some(t) => order_type_code(t) == v,
                None => v != 1 && v != 2,
            },
    {
        match v {
            1 => Some(OrderType::Limit),
            2 => Some(OrderType::Market),
            _ => None,
        }
    }

    /// The display name, "Limit" or "Market".
    pub fn to_string(&self) -> (res: String)
        ensures
            res@ == order_type_name(*self),
    {
        match self {
            OrderType::Limit => owned("Limit"),
            OrderType::Market => owned("Market"),
        }
    }

    /// Parses a display name; any other text is refused with a message.
    pub fn from_str(s: &str) -> (res: Result<OrderType, String>)
        ensures
            match res {
                Ok(t) => order_type_name(t) == s@,
                Err(msg) => s@ != "Limit"@ && s@ != "Market"@ && msg@ == "Unknown order type: "@ + s@,
            },
    {
        if str_equals(s, "Limit") {
            Ok(OrderType::Limit)
        } else if str_equals(s, "Market") {
            Ok(OrderType::Market)
        } else {
            Err(owned("Unknown order type: ").concat(s))
        }
    }
}

/// Life-cycle status of an order.
#[derive(Debug, Clone, PartialEq, Eq)]
pub enum OrderStatus {
    New,
    Accepted,
    PartiallyFilled,
    Filled,
    Cancelled,
    Rejected(String),
}

/// Wire code of a status.
pub open spec fn status_code(s: OrderStatus) -> u8 {
    match s {
        OrderStatus::New => 1,
        OrderStatus::Accepted => 2,
        OrderStatus::PartiallyFilled => 3,
        OrderStatus::Filled => 4,
        OrderStatus::Cancelled => 5,
        OrderStatus::Rejected(_) => 6,
    }
}

impl OrderStatus {
    /// The wire code, 1 to 6.
    pub fn code(&self) -> (res: u8)
        ensures
            res == status_code(*self),
    {
        match self {
            OrderStatus::New => 1,
            OrderStatus::Accepted => 2,
            OrderStatus::PartiallyFilled => 3,
            OrderStatus::Filled => 4,
            OrderStatus::Cancelled => 5,
            OrderStatus::Rejected(_) => 6,
        }
    }

    /// The status with the given code; a rejection carries the reason (empty
    /// when none is given), and an unknown code reads as `New`.
    pub fn from_code(code: u8, rejection_reason: Option<String>) -> (res: OrderStatus)
        ensures
            1 <= code <= 6 ==> status_code(res) == code,
            !(1 <= code <= 6) ==> res is New,
            res matches OrderStatus::Rejected(r) ==> r@ == match rejection_reason {
                Some(t) => t@,
                None => Seq::<char>::empty(),
            },
    {
        match code {
            1 => OrderStatus::New,
            2 => OrderStatus::Accepted,
            3 => OrderStatus::PartiallyFilled,
            4 => OrderStatus::Filled,
            5 => OrderStatus::Cancelled,
            6 => OrderStatus::Rejected(match rejection_reason {
                Some(t) => t,
                None => String::new(),
            }),
            _ => OrderStatus::New,
        }
    }
}

/// A resting or incoming order.
#[derive(Debug, Clone, Copy)]
pub struct Order {
    pub order_id: u64,
    pub user_id: u64,
    pub symbol_id: u32,
    pub side: Side,
    pub order_type: OrderType,
    pub price: u64,
    pub quantity: u64,
    pub timestamp: u64,
}

/// A fill between a buy and a sell order.
#[derive(Debug, Clone, Copy)]
pub struct Trade {
    pub trade_id: u64,
    pub buy_order_id: u64,
    pub sell_order_id: u64,
    pub buy_user_id: u64,
    pub sell_user_id: u64,
    pub price: u64,
    pub quantity: u64,
    pub match_seq: u64,
}

/// Errors of order handling.
#[derive(Debug, Clone)]
pub enum OrderError {
    InsufficientFunds { user_id: u64, asset_id: u32, required: u64, available: u64 },
    InvalidSymbol { symbol_id: u32 },
    SymbolMismatch { expected: u32, actual: u32 },
    DuplicateOrderId { order_id: u64 },
    OrderNotFound { order_id: u64 },
    AssetMapNotFound { symbol_id: u32 },
    LedgerError(String),
    Other(String),
}

/// The human-readable message of an order error.
pub open spec fn order_error_message(e: OrderError) -> Seq<char> {
    match e {
        OrderError::InsufficientFunds { user_id, asset_id, required, available } =>
            "Insufficient funds: User "@ + nat_text(user_id as nat) + " needs "@
                + nat_text(required as nat) + " of Asset "@ + nat_text(asset_id as nat)
                + ", has "@ + nat_text(available as nat),
        OrderError::InvalidSymbol { symbol_id } => "Invalid symbol ID: "@ + nat_text(symbol_id as nat),
        OrderError::SymbolMismatch { expected, actual } =>
            "Symbol mismatch: expected '"@ + nat_text(expected as nat) + "', got '"@
                + nat_text(actual as nat) + "'"@,
        OrderError::DuplicateOrderId { order_id } => "Duplicate Order ID: "@ + nat_text(order_id as nat),
        OrderError::OrderNotFound { order_id } => "Order Not Found: "@ + nat_text(order_id as nat),
        OrderError::AssetMapNotFound { symbol_id } =>
            "Asset map not found for symbol ID: "@ + nat_text(symbol_id as nat),
        OrderError::LedgerError(m) => "Ledger Error: "@ + m@,
        OrderError::Other(m) => "Error: "@ + m@,
    }
}

impl OrderError {
    /// The human-readable message of the error.
    pub fn message(&self) -> (res: String)
        ensures
            res@ == order_error_message(*self),
    {
        match self {
            OrderError::InsufficientFunds { user_id, asset_id, required, available } =>
                owned("Insufficient funds: User ").concat(u64_text(*user_id).as_str())
                    .concat(" needs ").concat(u64_text(*required).as_str())
                    .concat(" of Asset ").concat(u64_text(*asset_id as u64).as_str())
                    .concat(", has ").concat(u64_text(*available).as_str()),
            OrderError::InvalidSymbol { symbol_id } =>
                owned("Invalid symbol ID: ").concat(u64_text(*symbol_id as u64).as_str()),
            OrderError::SymbolMismatch { expected, actual } =>
                owned("Symbol mismatch: expected '").concat(u64_text(*expected as u64).as_str())
                    .concat("', got '").concat(u64_text(*actual as u64).as_str()).concat("'"),
            OrderError::DuplicateOrderId { order_id } =>
                owned("Duplicate Order ID: ").concat(u64_text(*order_id).as_str()),
            OrderError::OrderNotFound { order_id } =>
                owned("Order Not Found: ").concat(u64_text(*order_id).as_str()),
            OrderError::AssetMapNotFound { symbol_id } =>
                owned("Asset map not found for symbol ID: ").concat(u64_text(*symbol_id as u64).as_str()),
            OrderError::LedgerError(m) => owned("Ledger Error: ").concat(m.as_str()),
            OrderError::Other(m) => owned("Error: ").concat(m.as_str()),
        }
    }
}

impl From<String> for OrderError {
    fn from(err: String) -> (res: OrderError) {
        OrderError::Other(err)
    }
}

impl vstd::std_specs::convert::FromSpecImpl<String> for OrderError {
    open spec fn obeys_from_spec() -> bool {
        true
    }

    open spec fn from_spec(v: String) -> OrderError {
        OrderError::Other(v)
    }
}

/// The decimal digits of a mantissa, none for zero.
pub open spec fn mantissa_digits(m: u64) -> Seq<char> {
    if m == 0 { Seq::empty() } else { nat_text(m as nat) }
}

/// `n` zero characters.
pub open spec fn zeros(n: nat) -> Seq<char> {
    Seq::new(n, |i: int| '0')
}

/// The digits of a mantissa, zero-padded on the left to at least `scale`.
pub open spec fn padded_digits(m: u64, scale: nat) -> Seq<char> {
    let d = mantissa_digits(m);
    if d.len() < scale { zeros((scale - d.len()) as nat) + d } else { d }
}

/// The text of the decimal `mantissa / 10^scale` as a `Decimal` with that
/// scale prints: every fractional digit the scale gives, trailing zeros
/// kept, a "0" before the point when the whole part is zero, and "0" for
/// zero without fractional digits.
pub open spec fn decimal_text_of(mantissa: u64, scale: u32) -> Seq<char> {
    let p = padded_digits(mantissa, scale as nat);
    let w = p.len() - scale;
    if scale == 0 {
        if mantissa == 0 { seq!['0'] } else { p }
    } else {
        (if w == 0 { seq!['0'] } else { p.take(w) }) + seq!['.'] + p.skip(w)
    }
}

/// Wrapper of `Decimal::from_i128_with_scale` followed by `to_string`: the
/// `Display` impl writes the mantissa's digits, zero-padded to the scale,
/// with the point before the last `scale` of them (`decimal_text_of`). The
/// constructor panics above 28 fractional digits, so those are left out.
#[verifier::external_body]
fn decimal_text(mantissa: u64, scale: u32) -> (res: String)
    requires
        scale <= 28,
    ensures
        res@ == decimal_text_of(mantissa, scale),
{
    rust_decimal::Decimal::from_i128_with_scale(mantissa as i128, scale).to_string()
}

/// Decimal text of an amount held as an integer count of the smallest unit,
/// with `decimals` fractional digits. A decimal holds at most 28 of them.
pub fn u64_to_decimal_string(amount: u64, decimals: u32) -> (res: String)
    requires
        decimals <= 28,
    ensures
        res@ == decimal_text_of(amount, decimals),
{
    decimal_text(amount, decimals)
}

} // verus!
