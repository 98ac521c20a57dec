//! Orders as clients submit them, and the rules they must meet before the
//! exchange takes them.

use vstd::prelude::*;
use crate::internal_transfer_types::{upper_case, upper_case_of};
use crate::order_utils::{OrderType, Side};
use crate::symbol_manager::{SymbolManager, id_of};
use crate::text::{owned, str_equals};

verus! {

/// What `char::is_alphanumeric` says of a character (Unicode letters and
/// numbers).
pub uninterp spec fn alphanumeric(c: char) -> bool;

/// Wrapper of `char::is_alphanumeric`, a function of the character alone.
#[verifier::external_body]
fn is_alphanumeric(c: char) -> (res: bool)
    ensures
        res == alphanumeric(c),
{
    c.is_alphanumeric()
}

/// A decimal amount: `mantissa` scaled down by `scale` decimal places.
#[derive(Debug, Clone, Copy, PartialEq, Eq, Structural)]
pub struct DecimalValue {
    pub mantissa: i128,
    pub scale: u32,
}

/// An order as a client sends it with integer amounts and their decimals.
#[derive(Debug, Clone)]
pub struct ClientRawOrder {
    pub user_id: u64,
    pub cid: Option<String>,
    pub symbol_id: u64,
    pub side: Side,
    pub price: u64,
    pub price_decimal: u32,
    pub quantity: u64,
    pub quantity_decimal: u32,
    pub order_type: OrderType,
}

/// An order as a client submits it.
#[derive(Debug, Clone)]
pub struct ClientOrder {
    pub cid: Option<String>,
    pub symbol: String,
    pub side: Side,
    pub price: DecimalValue,
    pub quantity: DecimalValue,
    pub order_type: OrderType,
}

/// A rule a client order breaks.
#[derive(Debug, Clone, Copy, PartialEq, Eq, Structural)]
pub enum OrderViolation {
    /// The client order id is not 20 to 32 characters long.
    CidLength,
    /// The client order id holds a character that is not a letter or digit.
    CidNotAlphanumeric,
    /// The symbol is not 3 to 24 characters long.
    SymbolLength,
    /// The symbol holds a character that is not a letter, digit or underscore.
    SymbolChars,
    /// The symbol is not in upper case.
    SymbolCase,
    /// The symbol holds no underscore.
    SymbolNoUnderscore,
    /// The symbol starts or ends with an underscore.
    SymbolUnderscoreAtEdge,
    /// The symbol holds two underscores in a row.
    SymbolDoubleUnderscore,
    /// The price is not above zero.
    PriceNotPositive,
    /// The quantity is not above zero.
    QuantityNotPositive,
}

/// Why a client order is refused.
#[derive(Debug, Clone)]
pub enum ClientOrderError {
    /// The order breaks these rules, in the order the fields are declared.
    Invalid(Vec<OrderViolation>),
    /// The symbol is not listed.
    UnknownSymbol(String),
}

/// The first rule of the symbol format a text breaks, if any.
pub open spec fn symbol_format_violation(s: Seq<char>) -> Option<OrderViolation> {
    if !(forall|i: int| 0 <= i < s.len() ==> alphanumeric(#[trigger] s[i]) || s[i] == '_') {
        Some(OrderViolation::SymbolChars)
    } else if s != upper_case_of(s) {
        Some(OrderViolation::SymbolCase)
    } else if !s.contains('_') {
        Some(OrderViolation::SymbolNoUnderscore)
    } else if s[0] == '_' || s[s.len() - 1] == '_' {
        Some(OrderViolation::SymbolUnderscoreAtEdge)
    } else if exists|i: int| 0 <= i < s.len() - 1 && #[trigger] s[i] == '_' && s[i + 1] == '_' {
        Some(OrderViolation::SymbolDoubleUnderscore)
    } else {
        None
    }
}

/// The rules a client order id breaks: its length, then its characters.
pub open spec fn cid_violations(cid: Option<String>) -> Seq<OrderViolation> {
    match cid {
        Some(c) => {
            (if 20 <= c@.len() <= 32 { Seq::empty() } else { seq![OrderViolation::CidLength] })
            + (if forall|i: int| 0 <= i < c@.len() ==> alphanumeric(#[trigger] c@[i]) {
                Seq::empty()
            } else {
                seq![OrderViolation::CidNotAlphanumeric]
            })
        },
        None => Seq::empty(),
    }
}

/// The rules an order breaks, in the order its fields are declared: the
/// client id's length and characters (when it has one), the symbol's length
/// and format, then price and quantity.
pub open spec fn order_violations(o: ClientOrder) -> Seq<OrderViolation> {
    cid_violations(o.cid) + symbol_violations(o.symbol@) + amount_violations(o.price, o.quantity)
}

/// The rules a symbol breaks: its length, then the first rule of its format.
pub open spec fn symbol_violations(s: Seq<char>) -> Seq<OrderViolation> {
    (if 3 <= s.len() <= 24 { Seq::empty() } else { seq![OrderViolation::SymbolLength] })
    + match symbol_format_violation(s) { Some(v) => seq![v], None => Seq::empty() }
}

/// The rules a price and a quantity break: each must be above zero.
pub open spec fn amount_violations(price: DecimalValue, quantity: DecimalValue) -> Seq<OrderViolation> {
    (if price.mantissa > 0 { Seq::empty() } else { seq![OrderViolation::PriceNotPositive] })
    + (if quantity.mantissa > 0 { Seq::empty() } else { seq![OrderViolation::QuantityNotPositive] })
}

/// Whether every character of a text is a letter or digit.
pub fn validate_alphanumeric(id: &str) -> (res: Result<(), OrderViolation>)
    ensures
        res is Ok <==> forall|i: int| 0 <= i < id@.len() ==> alphanumeric(#[trigger] id@[i]),
        res matches Err(v) ==> v == OrderViolation::CidNotAlphanumeric,
{
    let n = id.unicode_len();
    let mut i: usize = 0;
    while i < n
        invariant
            n == id@.len(),
            i <= n,
            forall|j: int| 0 <= j < i ==> alphanumeric(#[trigger] id@[j]),
        decreases n - i,
    {
        if !is_alphanumeric(id.get_char(i)) {
            return Err(OrderViolation::CidNotAlphanumeric);
        }
        i = i + 1;
    }
    Ok(())
}

/// Whether a symbol has the listed form: upper-case letters and digits in
/// words joined by single underscores, at least two words.
pub fn validate_symbol_format(symbol: &str) -> (res: Result<(), OrderViolation>)
    ensures
        match symbol_format_violation(symbol@) {
            Some(v) => res == Err::<(), OrderViolation>(v),
            None => res is Ok,
        },
{
    let n = symbol.unicode_len();
    let mut i: usize = 0;
    let mut has_underscore = false;
    while i < n
        invariant
            n == symbol@.len(),
            i <= n,
            forall|j: int| 0 <= j < i ==> alphanumeric(#[trigger] symbol@[j]) || symbol@[j] == '_',
            has_underscore <==> exists|j: int| 0 <= j < i && symbol@[j] == '_',
        decreases n - i,
    {
        let c = symbol.get_char(i);
        if !(is_alphanumeric(c) || c == '_') {
            return Err(OrderViolation::SymbolChars);
        }
        if c == '_' {
            has_underscore = true;
        }
        i = i + 1;
    }
    let upper = upper_case(symbol);
    if !str_equals(symbol, upper.as_str()) {
        return Err(OrderViolation::SymbolCase);
    }
    if !has_underscore {
        proof {
            assert forall|j: int| 0 <= j < symbol@.len() implies symbol@[j] != '_' by {}
        }
        return Err(OrderViolation::SymbolNoUnderscore);
    }
    proof {
        let j = choose|j: int| 0 <= j < n && symbol@[j] == '_';
        assert(symbol@.contains('_'));
    }
    if symbol.get_char(0) == '_' || symbol.get_char(n - 1) == '_' {
        return Err(OrderViolation::SymbolUnderscoreAtEdge);
    }
    let ghost earlier_rules_hold: bool = symbol_format_violation(symbol@) is None
        || symbol_format_violation(symbol@) == Some(OrderViolation::SymbolDoubleUnderscore);
    assert(earlier_rules_hold);
    let mut k: usize = 0;
    while k < n - 1
        invariant
            n == symbol@.len(),
            n >= 1,
            k <= n - 1,
            earlier_rules_hold,
            earlier_rules_hold == (symbol_format_violation(symbol@) is None
                || symbol_format_violation(symbol@) == Some(OrderViolation::SymbolDoubleUnderscore)),
            forall|j: int| 0 <= j < k ==> !(#[trigger] symbol@[j] == '_' && symbol@[j + 1] == '_'),
        decreases n - k,
    {
        if symbol.get_char(k) == '_' && symbol.get_char(k + 1) == '_' {
            assert(symbol@[k as int] == '_' && symbol@[k + 1] == '_');
            return Err(OrderViolation::SymbolDoubleUnderscore);
        }
        k = k + 1;
    }
    Ok(())
}

/// Whether a price is above zero.
pub fn validate_price_decimal(price: DecimalValue) -> (res: Result<(), OrderViolation>)
    ensures
        res is Ok <==> price.mantissa > 0,
        res matches Err(v) ==> v == OrderViolation::PriceNotPositive,
{
    if price.mantissa > 0 {
        Ok(())
    } else {
        Err(OrderViolation::PriceNotPositive)
    }
}

/// Whether a quantity is above zero.
pub fn validate_quantity_decimal(quantity: DecimalValue) -> (res: Result<(), OrderViolation>)
    ensures
        res is Ok <==> quantity.mantissa > 0,
        res matches Err(v) ==> v == OrderViolation::QuantityNotPositive,
{
    if quantity.mantissa > 0 {
        Ok(())
    } else {
        Err(OrderViolation::QuantityNotPositive)
    }
}

/// The rules a client order id breaks, as a list.
fn cid_violation_list(cid: &Option<String>) -> (vs: Vec<OrderViolation>)
    ensures
        vs@ == cid_violations(*cid),
{
    let mut vs: Vec<OrderViolation> = Vec::new();
    match cid {
        Some(c) => {
            let len = c.as_str().unicode_len();
            if !(20 <= len && len <= 32) {
                vs.push(OrderViolation::CidLength);
            }
            match validate_alphanumeric(c.as_str()) {
                Ok(()) => {},
                Err(v) => vs.push(v),
            }
        },
        None => {},
    }
    assert(vs@ =~= cid_violations(*cid));
    vs
}

/// The rules a symbol breaks, as a list.
fn symbol_violation_list(symbol: &str) -> (vs: Vec<OrderViolation>)
    ensures
        vs@ == symbol_violations(symbol@),
{
    let mut vs: Vec<OrderViolation> = Vec::new();
    let slen = symbol.unicode_len();
    if !(3 <= slen && slen <= 24) {
        vs.push(OrderViolation::SymbolLength);
    }
    match validate_symbol_format(symbol) {
        Ok(()) => {},
        Err(v) => vs.push(v),
    }
    assert(vs@ =~= symbol_violations(symbol@));
    vs
}

/// The rules a price and a quantity break, as a list.
fn amount_violation_list(price: DecimalValue, quantity: DecimalValue) -> (vs: Vec<OrderViolation>)
    ensures
        vs@ == amount_violations(price, quantity),
{
    let mut vs: Vec<OrderViolation> = Vec::new();
    match validate_price_decimal(price) {
        Ok(()) => {},
        Err(v) => vs.push(v),
    }
    match validate_quantity_decimal(quantity) {
        Ok(()) => {},
        Err(v) => vs.push(v),
    }
    assert(vs@ =~= amount_violations(price, quantity));
    vs
}

impl ClientOrder {
    /// A client order, checked.
    pub fn new(
        cid: Option<String>,
        symbol: String,
        side: Side,
        price: DecimalValue,
        quantity: DecimalValue,
        order_type: OrderType,
    ) -> (res: Result<ClientOrder, ClientOrderError>)
        ensures
            ({
                let o = ClientOrder { cid, symbol, side, price, quantity, order_type };
                match res {
                    Ok(r) => r == o && order_violations(o).len() == 0,
                    Err(ClientOrderError::Invalid(vs)) => vs@ == order_violations(o) && vs@.len() > 0,
                    Err(ClientOrderError::UnknownSymbol(_)) => false,
                }
            }),
    {
        let order = ClientOrder { cid, symbol, side, price, quantity, order_type };
        match order.validate_order() {
            Ok(()) => Ok(order),
            Err(e) => Err(e),
        }
    }

    /// Checks every rule; refuses with all the rules broken.
    pub fn validate_order(&self) -> (res: Result<(), ClientOrderError>)
        ensures
            match res {
                Ok(()) => order_violations(*self).len() == 0,
                Err(ClientOrderError::Invalid(vs)) => vs@ == order_violations(*self) && vs@.len() > 0,
                Err(ClientOrderError::UnknownSymbol(_)) => false,
            },
    {
        let mut vs = cid_violation_list(&self.cid);
        let mut symbol_part = symbol_violation_list(self.symbol.as_str());
        vs.append(&mut symbol_part);
        let mut amount_part = amount_violation_list(self.price, self.quantity);
        vs.append(&mut amount_part);
        assert(vs@ =~= order_violations(*self));
        if vs.len() == 0 {
            Ok(())
        } else {
            Err(ClientOrderError::Invalid(vs))
        }
    }

    /// Checks every rule, then that the symbol is listed.
    pub fn validate_with_symbol_manager(&self, symbol_manager: &SymbolManager) -> (res: Result<(), ClientOrderError>)
        ensures
            order_violations(*self).len() > 0 ==> (res matches Err(ClientOrderError::Invalid(vs))
                && vs@ == order_violations(*self)),
            order_violations(*self).len() == 0 ==> match id_of(symbol_manager.symbol_to_id@, self.symbol@) {
                Some(id) => if symbol_manager.symbol_info@.contains_key(id) {
                    res is Ok
                } else {
                    (res matches Err(ClientOrderError::UnknownSymbol(s)) && s@ == self.symbol@)
                },
                None => (res matches Err(ClientOrderError::UnknownSymbol(s)) && s@ == self.symbol@),
            },
    {
        match self.validate_order() {
            Ok(()) => {},
            Err(e) => return Err(e),
        }
        match symbol_manager.get_symbol_info(self.symbol.as_str()) {
            Some(_) => Ok(()),
            None => Err(ClientOrderError::UnknownSymbol(owned(self.symbol.as_str()))),
        }
    }
}

} // verus!
