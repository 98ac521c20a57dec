//! Time-ordered 64-bit identifiers: 48 bits of milliseconds, 16 bits of
//! randomness or counter, and their text forms.

use rand::Rng;
use rand::rngs::ThreadRng;
use vstd::prelude::*;
use crate::text::{owned, u64_text, nat_text};

verus! {

#[verifier::external_type_specification]
#[verifier::external_body]
pub struct ExThreadRng(rand::rngs::ThreadRng);

#[verifier::external_type_specification]
#[verifier::external_body]
pub struct ExUlidGenerator(ulid::Generator);

#[verifier::external_type_specification]
#[verifier::external_body]
pub struct ExUlid(ulid::Ulid);

#[verifier::external_type_specification]
#[verifier::external_body]
pub struct ExMonotonicError(ulid::MonotonicError);

/// Wrapper of `rand::rng`: a handle to the thread's random generator.
/// It panics only where the operating system offers no randomness at all.
#[verifier::external_body]
pub(crate) fn thread_rng() -> (res: ThreadRng) {
    rand::rng()
}

/// Wrapper of `Rng::random::<u16>`: sixteen random bits; nothing is promised
/// of their value.
#[verifier::external_body]
fn random_u16(rng: &mut ThreadRng) -> (res: u16) {
    rng.random::<u16>()
}

/// Wrapper of `SystemTime::now`, read as milliseconds since the Unix epoch
/// (zero for a clock set before it). Nothing is promised of the value.
#[verifier::external_body]
pub fn now_ms() -> (res: u64) {
    std::time::SystemTime::now()
        .duration_since(std::time::UNIX_EPOCH)
        .unwrap_or(std::time::Duration::ZERO)
        .as_millis() as u64
}

/// Wrapper of `ulid::Generator::new`.
#[verifier::external_body]
fn ulid_generator() -> (res: ulid::Generator) {
    ulid::Generator::new()
}

/// Wrapper of `ulid::Generator::generate`. Its value rests on the clock
/// and on chance; the crate documents that each success is larger than the
/// generator's previous one, which the caller checks for itself on the
/// value it keeps.
#[verifier::external_body]
fn ulid_generate(g: &mut ulid::Generator) -> (res: Result<ulid::Ulid, ulid::MonotonicError>) {
    g.generate()
}

/// The ULID whose 128 bits are `v` (`Ulid::from(v)`, the tuple `Ulid(v)`).
pub uninterp spec fn ulid_of(v: u128) -> ulid::Ulid;

/// Wrapper of `u128::from(Ulid)`: the ULID's 128 bits, which give back the
/// same ULID.
#[verifier::external_body]
fn ulid_bits(u: &ulid::Ulid) -> (res: u128)
    ensures
        ulid_of(res) == *u,
{
    u128::from(*u)
}

/// Why a monotonic ULID generator hands out no ULID.
#[derive(Debug, Clone, Copy, PartialEq, Eq, Structural)]
pub enum UlidGenError {
    /// Every random part for the current millisecond is used up.
    Overflow,
    /// The generator gave a value no larger than the last one handed out
    /// (its documentation rules this out); the value is withheld.
    NotIncreasing,
}

/// What a generator hands out for a value drawn from the outside generator
/// (`None` when it overflowed): the value when it is larger than the last
/// one handed out, `NotIncreasing` otherwise, and `Overflow` when nothing
/// was drawn.
pub fn accept_ulid(last: u128, drawn: Option<u128>) -> (res: Result<u128, UlidGenError>)
    ensures
        drawn is None ==> res == Err::<u128, UlidGenError>(UlidGenError::Overflow),
        drawn matches Some(b) ==> (b > last ==> res == Ok::<u128, UlidGenError>(b))
            && (b <= last ==> res == Err::<u128, UlidGenError>(UlidGenError::NotIncreasing)),
{
    match drawn {
        None => Err(UlidGenError::Overflow),
        Some(b) => if b > last { Ok(b) } else { Err(UlidGenError::NotIncreasing) },
    }
}

/// Generator of standard 128-bit ULIDs, monotonic within a millisecond.
pub struct FastUlidGen {
    generator: ulid::Generator,
    last: u128,
}

impl FastUlidGen {
    /// The bits of the last ULID handed out (0 before the first).
    pub closed spec fn last(&self) -> u128 {
        self.last
    }

    pub fn new() -> (res: FastUlidGen)
        ensures
            res.last() == 0,
    {
        FastUlidGen { generator: ulid_generator(), last: 0 }
    }

    /// The next ULID, larger than every one handed out before, or an error
    /// once the random part of the current millisecond is exhausted. What
    /// the outside generator draws is judged by `accept_ulid`.
    pub fn generate(&mut self) -> (res: Result<ulid::Ulid, UlidGenError>)
        ensures
            match res {
                Ok(u) => final(self).last() > old(self).last() && u == ulid_of(final(self).last()),
                Err(_) => final(self).last() == old(self).last(),
            },
    {
        let outcome = ulid_generate(&mut self.generator);
        let drawn: Option<u128> = match &outcome {
            Ok(u) => Some(ulid_bits(u)),
            Err(_) => None,
        };
        match accept_ulid(self.last, drawn) {
            Ok(bits) => match outcome {
                Ok(u) => {
                    self.last = bits;
                    Ok(u)
                },
                Err(_) => Err(UlidGenError::Overflow),
            },
            Err(e) => Err(e),
        }
    }
}

impl Default for FastUlidGen {
    fn default() -> (res: FastUlidGen)
        ensures
            res.last() == 0,
    {
        FastUlidGen::new()
    }
}

/// Mask of the timestamp part of an identifier.
pub open spec fn ts_mask() -> u64 {
    0xFFFF_FFFF_FFFF_0000u64
}

/// The identifier that follows `last` for a clock reading of `ts_ms`
/// milliseconds: a fresh timestamp part with random low bits `r` when the
/// clock moved past the last timestamp, otherwise `last + 1` (wrapping).
pub open spec fn next_id(last: u64, ts_ms: u64, r: u16) -> u64 {
    if (ts_ms << 16u64) > (last & ts_mask()) {
        (ts_ms << 16u64) | (r as u64)
    } else if last == u64::MAX {
        0
    } else {
        (last + 1) as u64
    }
}

/// Whether `ids` were drawn one after another, from a generator whose last
/// identifier was `start`, all for the clock reading `ts_ms`.
pub open spec fn drawn_in_order(ids: Seq<u64>, start: u64, ts_ms: u64) -> bool {
    forall|i: int| 0 <= i < ids.len()
        ==> follows(if i == 0 { start } else { ids[i - 1] }, #[trigger] ids[i], ts_ms)
}

/// Whether `id` is an identifier the generator can give after `prev` for
/// the clock reading `ts_ms`.
pub open spec fn follows(prev: u64, id: u64, ts_ms: u64) -> bool {
    exists|r: u16| id == #[trigger] next_id(prev, ts_ms, r)
}

/// The generator's last identifier after drawing `ids` from `start`.
pub open spec fn last_drawn(ids: Seq<u64>, start: u64) -> u64 {
    if ids.len() == 0 { start } else { ids.last() }
}

/// 64-bit identifier generator: 48 bits of milliseconds and 16 bits that
/// start random in each new millisecond and count up within it.
pub struct FastUlidHalfGen {
    last_val: u64,
    rng: ThreadRng,
}

impl FastUlidHalfGen {
    /// The last identifier handed out (0 before the first).
    pub closed spec fn last(&self) -> u64 {
        self.last_val
    }

    pub fn new() -> (res: FastUlidHalfGen)
        ensures
            res.last() == 0,
    {
        FastUlidHalfGen { last_val: 0, rng: thread_rng() }
    }

    /// The next identifier for a clock reading of `ts_ms` milliseconds.
    pub fn generate_from_ts(&mut self, ts_ms: u64) -> (res: u64)
        ensures
            res == final(self).last(),
            exists|r: u16| res == next_id(old(self).last(), ts_ms, r),
    {
        let ts_part: u64 = ts_ms << 16u64;
        let last_ts_part: u64 = self.last_val & 0xFFFF_FFFF_FFFF_0000u64;
        if ts_part > last_ts_part {
            let r: u16 = random_u16(&mut self.rng);
            self.last_val = ts_part | (r as u64);
            assert(self.last_val == next_id(old(self).last(), ts_ms, r));
        } else {
            self.last_val = self.last_val.wrapping_add(1);
            assert(self.last_val == next_id(old(self).last(), ts_ms, 0u16));
        }
        self.last_val
    }

    /// The next identifier for the current time.
    pub fn generate(&mut self) -> (res: u64)
        ensures
            res == final(self).last(),
            exists|ts: u64, r: u16| res == next_id(old(self).last(), ts, r),
    {
        let now = now_ms();
        self.generate_from_ts(now)
    }

    /// Text of an identifier in Crockford base 32: ten characters of
    /// timestamp, then four of the low sixteen bits.
    pub fn to_str_base32(val: u64) -> (res: String)
        ensures
            res@ == base32_digits((val >> 16u64) as nat, 10) + base32_digits((val & 0xFFFFu64) as nat, 4),
    {
        let ts: u64 = val >> 16u64;
        let low: u64 = val & 0xFFFFu64;
        let head = base32_text(ts, 10);
        let tail = base32_text(low, 4);
        head.concat(tail.as_str())
    }

    /// Decimal text of an identifier.
    pub fn to_str_decimal(val: u64) -> (res: String)
        ensures
            res@ == nat_text(val as nat),
    {
        u64_text(val)
    }
}

impl Default for FastUlidHalfGen {
    fn default() -> (res: FastUlidHalfGen)
        ensures
            res.last() == 0,
    {
        FastUlidHalfGen::new()
    }
}

/// Identifiers grow strictly, whatever the clock says, until the counter
/// reaches the largest 64-bit value.
pub proof fn lemma_next_id_increases(last: u64, ts_ms: u64, r: u16)
    requires
        last < u64::MAX,
    ensures
        next_id(last, ts_ms, r) > last,
{
    let ts_part = ts_ms << 16u64;
    let lt = last & 0xFFFF_FFFF_FFFF_0000u64;
    if ts_part > lt {
        let rr = r as u64;
        assert((ts_part | rr) > last) by (bit_vector)
            requires
                ts_part == ts_ms << 16u64,
                lt == last & 0xFFFF_FFFF_FFFF_0000u64,
                ts_part > lt,
                rr < 0x10000u64;
    }
}

/// Crockford's base-32 alphabet.
pub open spec fn crockford() -> Seq<char> {
    seq!['0', '1', '2', '3', '4', '5', '6', '7', '8', '9', 'A', 'B', 'C', 'D', 'E', 'F',
        'G', 'H', 'J', 'K', 'M', 'N', 'P', 'Q', 'R', 'S', 'T', 'V', 'W', 'X', 'Y', 'Z']
}

/// The lowest `k` base-32 digits of `n`, most significant first.
pub open spec fn base32_digits(n: nat, k: nat) -> Seq<char>
    decreases k,
{
    if k == 0 {
        Seq::empty()
    } else {
        base32_digits(n / 32, (k - 1) as nat).push(crockford()[(n % 32) as int])
    }
}

fn base32_digit(d: u64) -> (res: &'static str)
    requires
        d < 32,
    ensures
        res@ == seq![crockford()[d as int]],
{
    proof {
        reveal_strlit("0"); reveal_strlit("1"); reveal_strlit("2"); reveal_strlit("3");
        reveal_strlit("4"); reveal_strlit("5"); reveal_strlit("6"); reveal_strlit("7");
        reveal_strlit("8"); reveal_strlit("9"); reveal_strlit("A"); reveal_strlit("B");
        reveal_strlit("C"); reveal_strlit("D"); reveal_strlit("E"); reveal_strlit("F");
        reveal_strlit("G"); reveal_strlit("H"); reveal_strlit("J"); reveal_strlit("K");
        reveal_strlit("M"); reveal_strlit("N"); reveal_strlit("P"); reveal_strlit("Q");
        reveal_strlit("R"); reveal_strlit("S"); reveal_strlit("T"); reveal_strlit("V");
        reveal_strlit("W"); reveal_strlit("X"); reveal_strlit("Y"); reveal_strlit("Z");
    }
    match d {
        0 => "0", 1 => "1", 2 => "2", 3 => "3", 4 => "4", 5 => "5", 6 => "6", 7 => "7",
        8 => "8", 9 => "9", 10 => "A", 11 => "B", 12 => "C", 13 => "D", 14 => "E", 15 => "F",
        16 => "G", 17 => "H", 18 => "J", 19 => "K", 20 => "M", 21 => "N", 22 => "P", 23 => "Q",
        24 => "R", 25 => "S", 26 => "T", 27 => "V", 28 => "W", 29 => "X", 30 => "Y", _ => "Z",
    }
}

fn base32_text(n: u64, k: u64) -> (res: String)
    ensures
        res@ == base32_digits(n as nat, k as nat),
    decreases k,
{
    if k == 0 {
        proof { reveal_strlit(""); }
        owned("")
    } else {
        let head = base32_text(n / 32, k - 1);
        head.concat(base32_digit(n % 32))
    }
}

/// Identifiers drawn one after another increase strictly, from above the
/// generator's last one, as long as no identifier before the last reached
/// the largest 64-bit value.
#[verifier::spinoff_prover]
#[verifier::rlimit(30)]
pub proof fn lemma_drawn_ids_increase(ids: Seq<u64>, start: u64, ts_ms: u64)
    requires
        drawn_in_order(ids, start, ts_ms),
        start < u64::MAX,
        forall|i: int| 0 <= i < ids.len() - 1 ==> ids[i] < u64::MAX,
    ensures
        forall|i: int, j: int| 0 <= i < j < ids.len() ==> ids[i] < ids[j],
        ids.len() > 0 ==> start < ids[0],
    decreases ids.len(),
{
    if ids.len() > 0 {
        let n = ids.len() - 1;
        let prefix = ids.drop_last();
        assert forall|i: int| 0 <= i < prefix.len()
            implies follows(if i == 0 { start } else { prefix[i - 1] }, #[trigger] prefix[i], ts_ms) by {
            assert(prefix[i] == ids[i]);
            assert(follows(if i == 0 { start } else { ids[i - 1] }, ids[i], ts_ms));
        }
        lemma_drawn_ids_increase(prefix, start, ts_ms);
        let prev = if n == 0 { start } else { ids[n - 1] };
        assert(follows(prev, ids[n], ts_ms));
        let r = choose|r: u16| ids[n] == next_id(prev, ts_ms, r);
        lemma_next_id_increases(prev, ts_ms, r);
        assert forall|i: int, j: int| 0 <= i < j < ids.len() implies ids[i] < ids[j] by {
            if j < n {
                assert(prefix[i] == ids[i] && prefix[j] == ids[j]);
            } else if i < n - 1 {
                assert(prefix[i] == ids[i] && prefix[n - 1] == ids[n - 1]);
            }
        }
        if n > 0 {
            assert(prefix[0] == ids[0]);
        }
    }
}

/// Whether `a` comes before `b` in character order, both of one length.
pub open spec fn text_before(a: Seq<char>, b: Seq<char>) -> bool {
    &&& a.len() == b.len()
    &&& exists|i: int| 0 <= i < a.len() && a.take(i) == b.take(i) && (a[i] as int) < (#[trigger] b[i] as int)
}

/// Thirty-two to the `k`.
pub open spec fn pow32(k: nat) -> nat
    decreases k,
{
    if k == 0 { 1 } else { 32 * pow32((k - 1) as nat) }
}

proof fn lemma_crockford_step(k: int)
    requires
        0 <= k < 31,
    ensures
        (crockford()[k] as int) < (crockford()[k + 1] as int),
{
    if k == 0 {
    }
    else if k == 1 {
    }
    else if k == 2 {
    }
    else if k == 3 {
    }
    else if k == 4 {
    }
    else if k == 5 {
    }
    else if k == 6 {
    }
    else if k == 7 {
    }
    else if k == 8 {
    }
    else if k == 9 {
    }
    else if k == 10 {
    }
    else if k == 11 {
    }
    else if k == 12 {
    }
    else if k == 13 {
    }
    else if k == 14 {
    }
    else if k == 15 {
    }
    else if k == 16 {
    }
    else if k == 17 {
    }
    else if k == 18 {
    }
    else if k == 19 {
    }
    else if k == 20 {
    }
    else if k == 21 {
    }
    else if k == 22 {
    }
    else if k == 23 {
    }
    else if k == 24 {
    }
    else if k == 25 {
    }
    else if k == 26 {
    }
    else if k == 27 {
    }
    else if k == 28 {
    }
    else if k == 29 {
    }
    else if k == 30 {
    }
}

proof fn lemma_crockford_increasing(i: int, j: int)
    requires
        0 <= i < j < 32,
    ensures
        (crockford()[i] as int) < (crockford()[j] as int),
    decreases j - i,
{
    lemma_crockford_step(j - 1);
    if i < j - 1 {
        lemma_crockford_increasing(i, j - 1);
    }
}

proof fn lemma_base32_digits_len(n: nat, k: nat)
    ensures
        base32_digits(n, k).len() == k,
    decreases k,
{
    if k > 0 {
        lemma_base32_digits_len(n / 32, (k - 1) as nat);
    }
}

proof fn lemma_before_push(a: Seq<char>, b: Seq<char>, x: char, y: char)
    requires
        text_before(a, b),
    ensures
        text_before(a.push(x), b.push(y)),
{
    let i = choose|i: int| 0 <= i < a.len() && a.take(i) == b.take(i) && (a[i] as int) < (#[trigger] b[i] as int);
    assert(a.push(x).take(i) =~= a.take(i));
    assert(b.push(y).take(i) =~= b.take(i));
    assert(a.push(x)[i] == a[i] && b.push(y)[i] == b[i]);
}

proof fn lemma_before_last(a: Seq<char>, x: char, y: char)
    requires
        (x as int) < (y as int),
    ensures
        text_before(a.push(x), a.push(y)),
{
    let i = a.len() as int;
    assert(a.push(x).take(i) =~= a.push(y).take(i));
    assert(a.push(x)[i] == x && a.push(y)[i] == y);
}

proof fn lemma_before_concat(a: Seq<char>, b: Seq<char>, c: Seq<char>, d: Seq<char>)
    requires
        text_before(a, b) || (a == b && text_before(c, d)),
        c.len() == d.len(),
    ensures
        text_before(a + c, b + d),
{
    if text_before(a, b) {
        let i = choose|i: int| 0 <= i < a.len() && a.take(i) == b.take(i) && (a[i] as int) < (#[trigger] b[i] as int);
        assert((a + c).take(i) =~= a.take(i));
        assert((b + d).take(i) =~= b.take(i));
        assert((a + c)[i] == a[i] && (b + d)[i] == b[i]);
    } else {
        let i = choose|i: int| 0 <= i < c.len() && c.take(i) == d.take(i) && (c[i] as int) < (#[trigger] d[i] as int);
        let j = a.len() + i;
        assert((a + c).take(j) =~= a + c.take(i));
        assert((b + d).take(j) =~= b + d.take(i));
        assert((a + c)[j] == c[i] && (b + d)[j] == d[i]);
    }
}

/// Fixed-width base-32 digits keep the order of the numbers they write.
proof fn lemma_base32_digits_order(n: nat, m: nat, k: nat)
    requires
        n < m < pow32(k),
    ensures
        text_before(base32_digits(n, k), base32_digits(m, k)),
    decreases k,
{
    if k == 0 {
    } else {
        let k1 = (k - 1) as nat;
        lemma_base32_digits_len(n / 32, k1);
        lemma_base32_digits_len(m / 32, k1);
        assert(m / 32 < pow32(k1)) by (nonlinear_arith)
            requires m < 32 * pow32(k1);
        if n / 32 < m / 32 {
            lemma_base32_digits_order(n / 32, m / 32, k1);
            lemma_before_push(base32_digits(n / 32, k1), base32_digits(m / 32, k1),
                crockford()[(n % 32) as int], crockford()[(m % 32) as int]);
        } else {
            assert(n / 32 == m / 32);
            assert(n % 32 < m % 32);
            lemma_crockford_increasing((n % 32) as int, (m % 32) as int);
            lemma_before_last(base32_digits(n / 32, k1), crockford()[(n % 32) as int], crockford()[(m % 32) as int]);
        }
    }
}

/// The base-32 text of identifiers keeps their order: a smaller identifier
/// writes as a text that comes first in character order.
pub proof fn lemma_base32_text_keeps_order(a: u64, b: u64)
    requires
        a < b,
    ensures
        text_before(
            base32_digits((a >> 16u64) as nat, 10) + base32_digits((a & 0xFFFFu64) as nat, 4),
            base32_digits((b >> 16u64) as nat, 10) + base32_digits((b & 0xFFFFu64) as nat, 4)),
{
    assert((a >> 16u64) < (b >> 16u64) || ((a >> 16u64) == (b >> 16u64) && (a & 0xFFFFu64) < (b & 0xFFFFu64)))
        by (bit_vector)
        requires a < b;
    assert((b >> 16u64) < 0x1_0000_0000_0000u64) by (bit_vector);
    assert((b & 0xFFFFu64) < 0x1_0000u64) by (bit_vector);
    assert(pow32(10) == 0x4_0000_0000_0000) by {
        reveal_with_fuel(pow32, 11);
    }
    assert(pow32(4) == 0x10_0000) by {
        reveal_with_fuel(pow32, 5);
    }
    lemma_base32_digits_len((a & 0xFFFFu64) as nat, 4);
    lemma_base32_digits_len((b & 0xFFFFu64) as nat, 4);
    if (a >> 16u64) < (b >> 16u64) {
        lemma_base32_digits_order((a >> 16u64) as nat, (b >> 16u64) as nat, 10);
    } else {
        lemma_base32_digits_order((a & 0xFFFFu64) as nat, (b & 0xFFFFu64) as nat, 4);
    }
    lemma_before_concat(
        base32_digits((a >> 16u64) as nat, 10), base32_digits((b >> 16u64) as nat, 10),
        base32_digits((a & 0xFFFFu64) as nat, 4), base32_digits((b & 0xFFFFu64) as nat, 4));
}

} // verus!
