//! Small verified helpers on strings.

use vstd::prelude::*;
use vstd::string::*;

verus! {

/// Compares two string slices by their characters.
pub fn str_equals(a: &str, b: &str) -> (res: bool)
    ensures
        res == (a@ == b@),
{
    let x: String = a.to_owned();
    let y: String = b.to_owned();
    x == y
}

/// Builds an owned string from a slice.
pub fn owned(s: &str) -> (res: String)
    ensures
        res@ == s@,
{
    s.to_owned()
}

/// The decimal digit character for `d` (below ten).
pub open spec fn digit_char(d: nat) -> char {
    if d == 0 { '0' }
    else if d == 1 { '1' }
    else if d == 2 { '2' }
    else if d == 3 { '3' }
    else if d == 4 { '4' }
    else if d == 5 { '5' }
    else if d == 6 { '6' }
    else if d == 7 { '7' }
    else if d == 8 { '8' }
    else { '9' }
}

/// Decimal representation of a natural number, most significant digit
/// first, without leading zeros ("0" for zero).
pub open spec fn nat_text(n: nat) -> Seq<char>
    decreases n,
{
    if n < 10 {
        seq![digit_char(n)]
    } else {
        nat_text(n / 10).push(digit_char(n % 10))
    }
}

/// Decimal representation of an integer, with a leading '-' when negative.
pub open spec fn int_text(i: int) -> Seq<char> {
    if i < 0 {
        seq!['-'] + nat_text((-i) as nat)
    } else {
        nat_text(i as nat)
    }
}

fn digit_str(d: u8) -> (res: &'static str)
    requires
        d < 10,
    ensures
        res@ == seq![digit_char(d as nat)],
{
    proof {
        reveal_strlit("0");
        reveal_strlit("1");
        reveal_strlit("2");
        reveal_strlit("3");
        reveal_strlit("4");
        reveal_strlit("5");
        reveal_strlit("6");
        reveal_strlit("7");
        reveal_strlit("8");
        reveal_strlit("9");
    }
    match d {
        0 => "0",
        1 => "1",
        2 => "2",
        3 => "3",
        4 => "4",
        5 => "5",
        6 => "6",
        7 => "7",
        8 => "8",
        _ => "9",
    }
}

/// Decimal text of an unsigned 128-bit integer.
pub fn u128_text(n: u128) -> (res: String)
    ensures
        res@ == nat_text(n as nat),
    decreases n,
{
    if n < 10 {
        owned(digit_str(n as u8))
    } else {
        let head = u128_text(n / 10);
        head.concat(digit_str((n % 10) as u8))
    }
}

/// Decimal text of an unsigned 64-bit integer.
pub fn u64_text(n: u64) -> (res: String)
    ensures
        res@ == nat_text(n as nat),
{
    u128_text(n as u128)
}

/// Decimal text of a signed 64-bit integer.
pub fn i64_text(i: i64) -> (res: String)
    ensures
        res@ == int_text(i as int),
{
    if i < 0 {
        let mag: u128 = (0i128 - (i as i128)) as u128;
        let digits = u128_text(mag);
        let minus = owned("-");
        proof { reveal_strlit("-"); }
        minus.concat(digits.as_str())
    } else {
        u128_text(i as u128)
    }
}

} // verus!
