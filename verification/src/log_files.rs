//! The names under which the ledger keeps its log segments
//! (`ledger_SEQ.wal`) and snapshots (`snapshot_SEQ_MD5.snap`), and the
//! choices made from a directory listing: the latest snapshot, the
//! segments in order, and the files past retention.

use vstd::prelude::*;
use crate::text::{nat_text, digit_char, owned, str_equals, u64_text};

verus! {

/// How many log segments are kept.
pub const WAL_RETENTION: usize = 3;

/// How many snapshots are kept.
pub const SNAPSHOT_RETENTION: usize = 3;

/// Whether a character is an ASCII decimal digit.
pub open spec fn is_digit(c: char) -> bool {
    '0' as int <= c as int <= '9' as int
}

/// The value of a text of decimal digits, most significant first.
pub open spec fn digits_value(s: Seq<char>) -> nat
    decreases s.len(),
{
    if s.len() == 0 {
        0
    } else {
        digits_value(s.drop_last()) * 10 + (s.last() as int - '0' as int) as nat
    }
}

/// A text without its leading `+`, if it has one.
pub open spec fn sign_stripped(s: Seq<char>) -> Seq<char> {
    if s.len() > 0 && s[0] == '+' { s.drop_first() } else { s }
}

/// Whether every character of a text is an ASCII digit.
pub open spec fn all_digits(d: Seq<char>) -> bool {
    forall|i: int| 0 <= i < d.len() ==> is_digit(#[trigger] d[i])
}

/// What `u64::from_str` reads from a text: an optional `+`, then one or
/// more ASCII digits whose value fits in `u64`.
pub open spec fn parsed_u64(s: Seq<char>) -> Option<u64> {
    let d = sign_stripped(s);
    if d.len() > 0 && all_digits(d) && digits_value(d) <= u64::MAX {
        Some(digits_value(d) as u64)
    } else {
        None
    }
}

proof fn lemma_parsed_refused(s: Seq<char>, d: Seq<char>)
    requires
        d == sign_stripped(s),
        !all_digits(d) || digits_value(d) > u64::MAX,
    ensures
        parsed_u64(s) is None,
{
}

proof fn lemma_digits_value_step(d: Seq<char>, k: int)
    requires
        0 <= k < d.len(),
        is_digit(d[k]),
    ensures
        digits_value(d.take(k + 1)) == digits_value(d.take(k)) * 10 + (d[k] as int - '0' as int),
{
    assert(d.take(k + 1).drop_last() =~= d.take(k));
}

proof fn lemma_digits_value_prefix_le(d: Seq<char>, k: int)
    requires
        0 <= k <= d.len(),
        forall|i: int| 0 <= i < d.len() ==> is_digit(#[trigger] d[i]),
    ensures
        digits_value(d.take(k)) <= digits_value(d),
    decreases d.len(),
{
    if k < d.len() {
        let p = d.drop_last();
        assert forall|i: int| 0 <= i < p.len() implies is_digit(#[trigger] p[i]) by {
            assert(p[i] == d[i]);
        }
        lemma_digits_value_prefix_le(p, k);
        assert(p.take(k) =~= d.take(k));
        assert(is_digit(d.last()));
    } else {
        assert(d.take(k) =~= d);
    }
}

/// Reads a text as `u64::from_str` does: an optional `+`, then one or more
/// ASCII digits whose value fits in `u64`.
fn parse_u64(s: &str) -> (res: Option<u64>)
    ensures
        res == parsed_u64(s@),
{
    let n = s.unicode_len();
    let start: usize = if n > 0 && s.get_char(0) == '+' { 1 } else { 0 };
    let ghost d = if s@.len() > 0 && s@[0] == '+' { s@.drop_first() } else { s@ };
    proof {
        if start == 1 {
            assert(d =~= s@.skip(1));
        } else {
            assert(d =~= s@.skip(0));
        }
    }
    if start == n {
        return None;
    }
    let mut v: u64 = 0;
    let mut i: usize = start;
    assert(d.take(0) =~= Seq::<char>::empty());
    while i < n
        invariant
            start <= i <= n,
            n == s@.len(),
            d == s@.skip(start as int),
            d == sign_stripped(s@),
            d.len() > 0,
            v == digits_value(d.take(i - start)),
            forall|j: int| 0 <= j < i - start ==> is_digit(#[trigger] d[j]),
        decreases n - i,
    {
        let c = s.get_char(i);
        assert(c == d[i - start]);
        if !('0' <= c && c <= '9') {
            assert(!is_digit(d[i - start]));
            assert(!(forall|j: int| 0 <= j < d.len() ==> is_digit(#[trigger] d[j])));
            proof { lemma_parsed_refused(s@, d); }
            return None;
        }
        assert(is_digit(d[i - start]));
        let dv: u64 = ((c as u32) - ('0' as u32)) as u64;
        proof { lemma_digits_value_step(d, i - start); }
        let next = match v.checked_mul(10) {
            Some(t) => t.checked_add(dv),
            None => None,
        };
        match next {
            Some(t) => {
                v = t;
            },
            None => {
                proof {
                    if all_digits(d) {
                        lemma_digits_value_prefix_le(d, i - start + 1);
                        assert(digits_value(d.take(i - start + 1)) > u64::MAX);
                    }
                    lemma_parsed_refused(s@, d);
                }
                return None;
            },
        }
        i = i + 1;
    }
    assert(d.take(n - start) =~= d);
    Some(v)
}

/// The text up to the first underscore (all of it when there is none).
pub open spec fn before_underscore(r: Seq<char>) -> Seq<char>
    decreases r.len(),
{
    if r.len() == 0 || r[0] == '_' {
        Seq::empty()
    } else {
        seq![r[0]] + before_underscore(r.drop_first())
    }
}

/// Whether a text holds no underscore.
pub open spec fn no_underscore(s: Seq<char>) -> bool {
    forall|i: int| 0 <= i < s.len() ==> s[i] != '_'
}

/// Whether `p` begins `s`.
pub open spec fn starts_with(s: Seq<char>, p: Seq<char>) -> bool {
    p.len() <= s.len() && s.take(p.len() as int) == p
}

/// The sequence number a log segment's name carries: the stem starts with
/// `ledger_` and the extension is `wal`; the number is the field after the
/// first underscore, up to the next one.
pub open spec fn wal_name_seq(stem: Seq<char>, ext: Option<Seq<char>>) -> Option<u64> {
    if starts_with(stem, "ledger_"@) && ext == Some("wal"@) {
        parsed_u64(before_underscore(stem.skip(7)))
    } else {
        None
    }
}

/// The sequence number an engine snapshot's name carries: the stem is
/// `engine_snapshot_` followed by the number, the extension is `bin`.
pub open spec fn engine_snapshot_name_seq(stem: Seq<char>, ext: Option<Seq<char>>) -> Option<u64> {
    if starts_with(stem, "engine_snapshot_"@) && ext == Some("bin"@) {
        parsed_u64(stem.skip(16))
    } else {
        None
    }
}

/// The sequence number and checksum a snapshot's name carries: the stem
/// starts with `snapshot_`, the extension is `snap`, and the stem has
/// exactly three underscore-separated fields.
pub open spec fn snapshot_name_fields(stem: Seq<char>, ext: Option<Seq<char>>) -> Option<(u64, Seq<char>)> {
    if starts_with(stem, "snapshot_"@) && ext == Some("snap"@) {
        let r = stem.skip(9);
        let a = before_underscore(r);
        let md5 = r.skip(a.len() as int + 1);
        if a.len() < r.len() && no_underscore(md5) {
            match parsed_u64(a) {
                Some(seq) => Some((seq, md5)),
                None => None,
            }
        } else {
            None
        }
    } else {
        None
    }
}

/// The field before the first underscore is the prefix up to it.
proof fn lemma_before_underscore(r: Seq<char>, k: int)
    requires
        0 <= k <= r.len(),
        forall|j: int| 0 <= j < k ==> r[j] != '_',
        k == r.len() || r[k] == '_',
    ensures
        before_underscore(r) == r.take(k),
    decreases k,
{
    if k == 0 {
        assert(r.take(0) =~= Seq::<char>::empty());
    } else {
        lemma_before_underscore(r.drop_first(), k - 1);
        assert(seq![r[0]] + r.drop_first().take(k - 1) =~= r.take(k));
    }
}

/// Whether `p` begins `s`.
fn has_prefix(s: &str, p: &str) -> (res: bool)
    ensures
        res == starts_with(s@, p@),
{
    let n = s.unicode_len();
    let m = p.unicode_len();
    if m > n {
        return false;
    }
    let mut i: usize = 0;
    while i < m
        invariant
            n == s@.len(),
            m == p@.len(),
            m <= n,
            i <= m,
            forall|j: int| 0 <= j < i ==> s@[j] == p@[j],
        decreases m - i,
    {
        if s.get_char(i) != p.get_char(i) {
            assert(s@.take(m as int)[i as int] != p@[i as int]);
            return false;
        }
        i = i + 1;
    }
    assert(s@.take(m as int) =~= p@);
    true
}

/// Index of the first underscore at or after `from`, or the length.
fn next_underscore(s: &str, from: usize) -> (k: usize)
    requires
        from <= s@.len(),
    ensures
        from <= k <= s@.len(),
        forall|j: int| from <= j < k ==> s@[j] != '_',
        k == s@.len() || s@[k as int] == '_',
{
    let n = s.unicode_len();
    let mut k = from;
    while k < n
        invariant
            n == s@.len(),
            from <= k <= n,
            forall|j: int| from <= j < k ==> s@[j] != '_',
        decreases n - k,
    {
        if s.get_char(k) == '_' {
            return k;
        }
        k = k + 1;
    }
    k
}

/// Whether an optional extension is the given one.
fn extension_is(ext: Option<&str>, want: &str) -> (res: bool)
    ensures
        res == (match ext { Some(e) => Some(e@), None => None::<Seq<char>> } == Some(want@)),
{
    match ext {
        Some(e) => str_equals(e, want),
        None => false,
    }
}

/// The sequence number in a log segment's name, if it is one.
pub fn wal_seq(stem: &str, extension: Option<&str>) -> (res: Option<u64>)
    ensures
        res == wal_name_seq(stem@, match extension { Some(e) => Some(e@), None => None }),
{
    proof {
        reveal_strlit("ledger_");
        reveal_strlit("wal");
    }
    if !has_prefix(stem, "ledger_") || !extension_is(extension, "wal") {
        return None;
    }
    let n = stem.unicode_len();
    let k = next_underscore(stem, 7);
    proof {
        let r = stem@.skip(7);
        assert forall|j: int| 0 <= j < k - 7 implies r[j] != '_' by {
            assert(r[j] == stem@[j + 7]);
        }
        if k < n {
            assert(r[k - 7] == stem@[k as int]);
        }
        lemma_before_underscore(r, k - 7);
        assert(r.take(k - 7) =~= stem@.subrange(7, k as int));
    }
    parse_u64(stem.substring_char(7, k))
}

/// The sequence number in an engine snapshot's name, if it is one.
pub fn engine_snapshot_seq(stem: &str, extension: Option<&str>) -> (res: Option<u64>)
    ensures
        res == engine_snapshot_name_seq(stem@, match extension { Some(e) => Some(e@), None => None }),
{
    proof {
        reveal_strlit("engine_snapshot_");
        reveal_strlit("bin");
    }
    if !has_prefix(stem, "engine_snapshot_") || !extension_is(extension, "bin") {
        return None;
    }
    let n = stem.unicode_len();
    proof { assert(stem@.subrange(16, n as int) =~= stem@.skip(16)); }
    parse_u64(stem.substring_char(16, n))
}

/// The sequence number and checksum in a snapshot's name, if it is one.
pub fn snapshot_fields(stem: &str, extension: Option<&str>) -> (res: Option<(u64, String)>)
    ensures
        match res {
            Some((seq, md5)) => snapshot_name_fields(stem@, match extension { Some(e) => Some(e@), None => None })
                == Some((seq, md5@)),
            None => snapshot_name_fields(stem@, match extension { Some(e) => Some(e@), None => None }) is None,
        },
{
    proof {
        reveal_strlit("snapshot_");
        reveal_strlit("snap");
    }
    if !has_prefix(stem, "snapshot_") || !extension_is(extension, "snap") {
        return None;
    }
    let n = stem.unicode_len();
    let k = next_underscore(stem, 9);
    let ghost r = stem@.skip(9);
    proof {
        assert forall|j: int| 0 <= j < k - 9 implies r[j] != '_' by {
            assert(r[j] == stem@[j + 9]);
        }
        if k < n {
            assert(r[k - 9] == stem@[k as int]);
        }
        lemma_before_underscore(r, k - 9);
        assert(r.take(k - 9) =~= stem@.subrange(9, k as int));
    }
    if k == n {
        return None;
    }
    let k2 = next_underscore(stem, k + 1);
    proof {
        assert(r.skip(k - 9 + 1) =~= stem@.subrange(k + 1, n as int));
    }
    if k2 < n {
        proof {
            assert(r.skip(k - 9 + 1)[k2 - k - 1] == '_');
        }
        return None;
    }
    match parse_u64(stem.substring_char(9, k)) {
        Some(seq) => Some((seq, owned(stem.substring_char(k + 1, n)))),
        None => None,
    }
}

/// The file name of the log segment that starts at `seq`.
pub fn wal_file_name(seq: u64) -> (res: String)
    ensures
        res@ == "ledger_"@ + nat_text(seq as nat) + ".wal"@,
{
    owned("ledger_").concat(u64_text(seq).as_str()).concat(".wal")
}

/// The file name of the snapshot at `seq` with checksum `md5`.
pub fn snapshot_file_name(seq: u64, md5: &str) -> (res: String)
    ensures
        res@ == "snapshot_"@ + nat_text(seq as nat) + "_"@ + md5@ + ".snap"@,
{
    owned("snapshot_").concat(u64_text(seq).as_str()).concat("_").concat(md5).concat(".snap")
}

/// A directory entry as the ledger reads it: the file's stem and
/// extension.
#[derive(Debug, Clone)]
pub struct LogFileName {
    pub stem: String,
    pub extension: Option<String>,
}

/// An optional text, read as characters.
pub open spec fn opt_view(e: Option<String>) -> Option<Seq<char>> {
    match e {
        Some(x) => Some(x@),
        None => None,
    }
}

/// The sequence number of an entry that names a log segment.
pub open spec fn entry_wal_seq(e: LogFileName) -> Option<u64> {
    wal_name_seq(e.stem@, opt_view(e.extension))
}

/// The sequence number and checksum of an entry that names a snapshot.
pub open spec fn entry_snapshot(e: LogFileName) -> Option<(u64, Seq<char>)> {
    snapshot_name_fields(e.stem@, opt_view(e.extension))
}

/// The sequence number of an entry that names a snapshot.
pub open spec fn entry_snapshot_seq(e: LogFileName) -> Option<u64> {
    match entry_snapshot(e) {
        Some(f) => Some(f.0),
        None => None,
    }
}

/// Listing order of (sequence number, entry index) pairs: by sequence
/// number, ascending or descending, and by index among equal numbers.
pub open spec fn listed_before(a: (u64, usize), b: (u64, usize), descending: bool) -> bool {
    (if descending { a.0 > b.0 } else { a.0 < b.0 }) || (a.0 == b.0 && a.1 < b.1)
}

/// Whether a listing is in listing order (which also rules out repeats).
pub open spec fn in_listing_order(v: Seq<(u64, usize)>, descending: bool) -> bool {
    forall|i: int, j: int| 0 <= i < j < v.len() ==> listed_before(#[trigger] v[i], #[trigger] v[j], descending)
}

fn ext_ref(e: &Option<String>) -> (res: Option<&str>)
    ensures
        match res { Some(x) => Some(x@), None => None::<Seq<char>> } == opt_view(*e),
{
    match e {
        Some(x) => Some(x.as_str()),
        None => None,
    }
}

/// Puts `x` into an ordered listing whose indices are all below `x.1`.
fn insert_in_order(v: &mut Vec<(u64, usize)>, x: (u64, usize), descending: bool)
    requires
        in_listing_order(old(v)@, descending),
        forall|k: int| 0 <= k < old(v)@.len() ==> old(v)@[k].1 < x.1,
    ensures
        in_listing_order(final(v)@, descending),
        forall|y: (u64, usize)| final(v)@.contains(y) <==> (old(v)@.contains(y) || y == x),
        final(v)@.len() == old(v)@.len() + 1,
{
    let n = v.len();
    let mut p: usize = 0;
    while p < n
        invariant
            n == v@.len(),
            p <= n,
            in_listing_order(v@, descending),
            forall|k: int| 0 <= k < n ==> v@[k].1 < x.1,
            forall|k: int| 0 <= k < p ==> #[trigger] listed_before(v@[k], x, descending),
        ensures
            p <= n,
            forall|k: int| 0 <= k < p ==> #[trigger] listed_before(v@[k], x, descending),
            p < n ==> (if descending { v@[p as int].0 < x.0 } else { v@[p as int].0 > x.0 }),
        decreases n - p,
    {
        let y = v[p];
        let goes_after = if descending { y.0 >= x.0 } else { y.0 <= x.0 };
        if !goes_after {
            break;
        }
        p = p + 1;
    }
    let ghost old_v = v@;
    proof {
        assert forall|k: int| p <= k < n implies listed_before(x, #[trigger] old_v[k], descending) by {
            if k > p {
                assert(listed_before(old_v[p as int], old_v[k], descending));
            }
        }
    }
    v.insert(p, x);
    proof {
        assert forall|i: int, j: int| 0 <= i < j < v@.len()
            implies listed_before(#[trigger] v@[i], #[trigger] v@[j], descending) by {
            if j < p {
                assert(v@[i] == old_v[i] && v@[j] == old_v[j]);
            } else if j == p {
                assert(v@[i] == old_v[i]);
            } else if i < p {
                assert(v@[i] == old_v[i] && v@[j] == old_v[j - 1]);
                assert(listed_before(x, old_v[j - 1], descending));
                assert(listed_before(old_v[i], x, descending));
            } else if i == p {
                assert(v@[j] == old_v[j - 1]);
            } else {
                assert(v@[i] == old_v[i - 1] && v@[j] == old_v[j - 1]);
            }
        }
        assert forall|y: (u64, usize)| v@.contains(y) <==> (old_v.contains(y) || y == x) by {
            if v@.contains(y) {
                let k = choose|k: int| 0 <= k < v@.len() && v@[k] == y;
                if k < p {
                    assert(old_v[k] == y);
                } else if k > p {
                    assert(old_v[k - 1] == y);
                }
            }
            if old_v.contains(y) {
                let k = choose|k: int| 0 <= k < old_v.len() && old_v[k] == y;
                if k < p {
                    assert(v@[k] == y);
                } else {
                    assert(v@[k + 1] == y);
                }
            }
            if y == x {
                assert(v@[p as int] == x);
            }
        }
        assert(forall|y: (u64, usize)| #[trigger] v@.contains(y) <==> (old(v)@.contains(y) || y == x));
    }
}

/// The log segments of a listing: (sequence number, entry index) pairs in
/// ascending order of sequence number, entries with equal numbers in
/// listing order.
pub fn list_wals(entries: &Vec<LogFileName>) -> (res: Vec<(u64, usize)>)
    ensures
        in_listing_order(res@, false),
        forall|x: (u64, usize)| res@.contains(x)
            <==> (x.1 < entries@.len() && entry_wal_seq(entries@[x.1 as int]) == Some(x.0)),
{
    let mut v: Vec<(u64, usize)> = Vec::new();
    let mut i: usize = 0;
    while i < entries.len()
        invariant
            i <= entries@.len(),
            in_listing_order(v@, false),
            forall|k: int| 0 <= k < v@.len() ==> v@[k].1 < i,
            forall|x: (u64, usize)| v@.contains(x)
                <==> (x.1 < i && entry_wal_seq(entries@[x.1 as int]) == Some(x.0)),
        decreases entries@.len() - i,
    {
        let e = &entries[i];
        match wal_seq(e.stem.as_str(), ext_ref(&e.extension)) {
            Some(s) => {
                let ghost v0 = v@;
                insert_in_order(&mut v, (s, i), false);
                proof {
                    assert forall|x: (u64, usize)| v@.contains(x)
                        <==> (x.1 < i + 1 && entry_wal_seq(entries@[x.1 as int]) == Some(x.0)) by {
                    }
                    assert forall|k: int| 0 <= k < v@.len() implies v@[k].1 < i + 1 by {
                        assert(v@.contains(v@[k]));
                        if v@[k] != (s, i) {
                            let j = choose|j: int| 0 <= j < v0.len() && v0[j] == v@[k];
                            assert(v0[j].1 < i);
                        }
                    }
                }
            },
            None => {},
        }
        i = i + 1;
    }
    v
}

/// The snapshots of a listing: (sequence number, entry index) pairs in
/// descending order of sequence number, entries with equal numbers in
/// listing order.
pub fn list_snapshots(entries: &Vec<LogFileName>) -> (res: Vec<(u64, usize)>)
    ensures
        in_listing_order(res@, true),
        forall|x: (u64, usize)| res@.contains(x)
            <==> (x.1 < entries@.len() && entry_snapshot_seq(entries@[x.1 as int]) == Some(x.0)),
{
    let mut v: Vec<(u64, usize)> = Vec::new();
    let mut i: usize = 0;
    while i < entries.len()
        invariant
            i <= entries@.len(),
            in_listing_order(v@, true),
            forall|k: int| 0 <= k < v@.len() ==> v@[k].1 < i,
            forall|x: (u64, usize)| v@.contains(x)
                <==> (x.1 < i && entry_snapshot_seq(entries@[x.1 as int]) == Some(x.0)),
        decreases entries@.len() - i,
    {
        let e = &entries[i];
        match snapshot_fields(e.stem.as_str(), ext_ref(&e.extension)) {
            Some((s, _)) => {
                let ghost v0 = v@;
                insert_in_order(&mut v, (s, i), true);
                proof {
                    assert forall|x: (u64, usize)| v@.contains(x)
                        <==> (x.1 < i + 1 && entry_snapshot_seq(entries@[x.1 as int]) == Some(x.0)) by {
                    }
                    assert forall|k: int| 0 <= k < v@.len() implies v@[k].1 < i + 1 by {
                        assert(v@.contains(v@[k]));
                        if v@[k] != (s, i) {
                            let j = choose|j: int| 0 <= j < v0.len() && v0[j] == v@[k];
                            assert(v0[j].1 < i);
                        }
                    }
                }
            },
            None => {},
        }
        i = i + 1;
    }
    v
}

/// The snapshot a recovery starts from: among the entries naming a
/// snapshot with a sequence number above zero, the first with the highest
/// number. Gives its index, number and checksum.
pub fn find_latest_snapshot(entries: &Vec<LogFileName>) -> (res: Option<(usize, u64, String)>)
    ensures
        match res {
            None => forall|j: int| 0 <= j < entries@.len()
                ==> !(#[trigger] entry_snapshot_seq(entries@[j]) matches Some(t) && t > 0),
            Some((i, seq, md5)) => {
                &&& i < entries@.len()
                &&& entry_snapshot(entries@[i as int]) == Some((seq, md5@))
                &&& seq > 0
                &&& forall|j: int| 0 <= j < entries@.len()
                    ==> (#[trigger] entry_snapshot_seq(entries@[j]) matches Some(t) ==> t <= seq)
                &&& forall|j: int| 0 <= j < i
                    ==> (#[trigger] entry_snapshot_seq(entries@[j]) matches Some(t) ==> t < seq)
            },
        },
{
    let mut max_seq: u64 = 0;
    let mut found: Option<(usize, u64, String)> = None;
    let mut i: usize = 0;
    while i < entries.len()
        invariant
            i <= entries@.len(),
            forall|j: int| 0 <= j < i
                ==> (#[trigger] entry_snapshot_seq(entries@[j]) matches Some(t) ==> t <= max_seq),
            match found {
                None => max_seq == 0,
                Some((k, seq, md5)) => {
                    &&& k < i
                    &&& seq == max_seq
                    &&& entry_snapshot(entries@[k as int]) == Some((seq, md5@))
                    &&& seq > 0
                    &&& forall|j: int| 0 <= j < k
                        ==> (#[trigger] entry_snapshot_seq(entries@[j]) matches Some(t) ==> t < seq)
                },
            },
        decreases entries@.len() - i,
    {
        let e = &entries[i];
        match snapshot_fields(e.stem.as_str(), ext_ref(&e.extension)) {
            Some((seq, md5)) => {
                if seq > max_seq {
                    max_seq = seq;
                    found = Some((i, seq, md5));
                }
            },
            None => {},
        }
        i = i + 1;
    }
    found
}

/// The sequence number of an entry that names an engine snapshot.
pub open spec fn entry_engine_snapshot_seq(e: LogFileName) -> Option<u64> {
    engine_snapshot_name_seq(e.stem@, opt_view(e.extension))
}

/// The engine snapshot recovery loads: the first entry with the highest
/// sequence number above zero, and that number; `None` when no entry
/// names one.
pub fn find_latest_engine_snapshot(entries: &Vec<LogFileName>) -> (res: Option<(usize, u64)>)
    ensures
        match res {
            None => forall|j: int| 0 <= j < entries@.len()
                ==> !(#[trigger] entry_engine_snapshot_seq(entries@[j]) matches Some(t) && t > 0),
            Some((i, seq)) => {
                &&& i < entries@.len()
                &&& entry_engine_snapshot_seq(entries@[i as int]) == Some(seq)
                &&& seq > 0
                &&& forall|j: int| 0 <= j < entries@.len()
                    ==> (#[trigger] entry_engine_snapshot_seq(entries@[j]) matches Some(t) ==> t <= seq)
                &&& forall|j: int| 0 <= j < i
                    ==> (#[trigger] entry_engine_snapshot_seq(entries@[j]) matches Some(t) ==> t < seq)
            },
        },
{
    let mut max_seq: u64 = 0;
    let mut found: Option<(usize, u64)> = None;
    let mut i: usize = 0;
    while i < entries.len()
        invariant
            i <= entries@.len(),
            forall|j: int| 0 <= j < i
                ==> (#[trigger] entry_engine_snapshot_seq(entries@[j]) matches Some(t) ==> t <= max_seq),
            match found {
                None => max_seq == 0,
                Some((k, seq)) => {
                    &&& k < i
                    &&& seq == max_seq
                    &&& entry_engine_snapshot_seq(entries@[k as int]) == Some(seq)
                    &&& seq > 0
                    &&& forall|j: int| 0 <= j < k
                        ==> (#[trigger] entry_engine_snapshot_seq(entries@[j]) matches Some(t) ==> t < seq)
                },
            },
        decreases entries@.len() - i,
    {
        let e = &entries[i];
        match engine_snapshot_seq(e.stem.as_str(), ext_ref(&e.extension)) {
            Some(seq) => {
                if seq > max_seq {
                    max_seq = seq;
                    found = Some((i, seq));
                }
            },
            None => {},
        }
        i = i + 1;
    }
    found
}

/// The log segment recovery appends to: the last in listing order (the
/// highest sequence number, the later entry among equal numbers).
pub fn find_latest_wal(entries: &Vec<LogFileName>) -> (res: Option<usize>)
    ensures
        match res {
            None => forall|j: int| 0 <= j < entries@.len() ==> (#[trigger] entry_wal_seq(entries@[j])) is None,
            Some(i) => {
                &&& i < entries@.len()
                &&& entry_wal_seq(entries@[i as int]) matches Some(s)
                    && forall|j: int| 0 <= j < entries@.len()
                        ==> (#[trigger] entry_wal_seq(entries@[j]) matches Some(t) ==> (t < s || (t == s && j <= i)))
            },
        },
{
    let n_entries = entries.len();
    let wals = list_wals(entries);
    let n = wals.len();
    if n == 0 {
        proof {
            assert forall|j: int| 0 <= j < entries@.len() implies (#[trigger] entry_wal_seq(entries@[j])) is None by {
                if entry_wal_seq(entries@[j]) is Some {
                    let x = (entry_wal_seq(entries@[j])->0, j as usize);
                    assert(j < n_entries);
                    assert(x.1 as int == j);
                    assert(wals@.contains(x));
                }
            }
        }
        return None;
    }
    let last = wals[n - 1];
    proof {
        assert(wals@.contains(last));
        assert forall|j: int| 0 <= j < entries@.len()
            implies (#[trigger] entry_wal_seq(entries@[j]) matches Some(t) ==> (t < last.0 || (t == last.0 && j <= last.1))) by {
            if entry_wal_seq(entries@[j]) is Some {
                let x = (entry_wal_seq(entries@[j])->0, j as usize);
                assert(j < n_entries);
                assert(x.1 as int == j);
                assert(wals@.contains(x));
                let k = choose|k: int| 0 <= k < wals@.len() && wals@[k] == x;
                if k < n - 1 {
                    assert(listed_before(wals@[k], wals@[n - 1], false));
                }
            }
        }
    }
    Some(last.1)
}

/// The log segments past retention: all but the last `WAL_RETENTION` of a
/// listing in order.
pub fn wals_past_retention(wals: &Vec<(u64, usize)>) -> (res: Vec<(u64, usize)>)
    ensures
        res@ == if wals@.len() > WAL_RETENTION { wals@.take(wals@.len() - WAL_RETENTION) } else { Seq::empty() },
{
    let mut out: Vec<(u64, usize)> = Vec::new();
    if wals.len() > WAL_RETENTION {
        let to_delete = wals.len() - WAL_RETENTION;
        let mut i: usize = 0;
        while i < to_delete
            invariant
                to_delete == wals@.len() - WAL_RETENTION,
                i <= to_delete,
                out@ == wals@.take(i as int),
            decreases to_delete - i,
        {
            out.push(wals[i]);
            i = i + 1;
            assert(out@ =~= wals@.take(i as int));
        }
    } else {
        assert(out@ =~= Seq::<(u64, usize)>::empty());
    }
    out
}

/// The snapshots past retention: all but the first `SNAPSHOT_RETENTION` of
/// a listing newest first.
pub fn snapshots_past_retention(snaps: &Vec<(u64, usize)>) -> (res: Vec<(u64, usize)>)
    ensures
        res@ == if snaps@.len() > SNAPSHOT_RETENTION { snaps@.skip(SNAPSHOT_RETENTION as int) } else { Seq::empty() },
{
    let mut out: Vec<(u64, usize)> = Vec::new();
    if snaps.len() > SNAPSHOT_RETENTION {
        let mut i: usize = SNAPSHOT_RETENTION;
        while i < snaps.len()
            invariant
                SNAPSHOT_RETENTION <= i <= snaps@.len(),
                out@ == snaps@.subrange(SNAPSHOT_RETENTION as int, i as int),
            decreases snaps@.len() - i,
        {
            out.push(snaps[i]);
            i = i + 1;
            assert(out@ =~= snaps@.subrange(SNAPSHOT_RETENTION as int, i as int));
        }
        assert(out@ =~= snaps@.skip(SNAPSHOT_RETENTION as int));
    } else {
        assert(out@ =~= Seq::<(u64, usize)>::empty());
    }
    out
}

/// Decimal text holds digits only, and reads back as its number.
proof fn lemma_nat_text_digits(n: nat)
    ensures
        nat_text(n).len() >= 1,
        forall|i: int| 0 <= i < nat_text(n).len() ==> is_digit(#[trigger] nat_text(n)[i]),
        digits_value(nat_text(n)) == n,
    decreases n,
{
    let d = n % 10;
    assert(is_digit(digit_char(d)) && digit_char(d) as int - '0' as int == d);
    if n < 10 {
        assert(digits_value(Seq::<char>::empty()) == 0);
        assert(nat_text(n).drop_last() =~= Seq::<char>::empty());
        assert(nat_text(n).last() == digit_char(n));
    } else {
        lemma_nat_text_digits(n / 10);
        let t = nat_text(n);
        assert(t.drop_last() =~= nat_text(n / 10));
        assert(t.last() == digit_char(d));
        assert(digits_value(t) == digits_value(nat_text(n / 10)) * 10 + d);
        assert((n / 10) * 10 + d == n);
    }
}

/// A number's decimal text parses back to the number.
proof fn lemma_parse_nat_text(n: nat)
    requires
        n <= u64::MAX,
    ensures
        parsed_u64(nat_text(n)) == Some(n as u64),
        no_underscore(nat_text(n)),
{
    lemma_nat_text_digits(n);
    let t = nat_text(n);
    assert(is_digit(t[0]));
    assert forall|i: int| 0 <= i < t.len() implies t[i] != '_' by {
        assert(is_digit(t[i]));
    }
}

/// A log segment named for a sequence number (stem `ledger_` and the
/// number, extension `wal`) is read back as that number.
pub proof fn lemma_wal_name_roundtrip(seq: u64)
    ensures
        wal_name_seq("ledger_"@ + nat_text(seq as nat), Some("wal"@)) == Some(seq),
{
    reveal_strlit("ledger_");
    let t = nat_text(seq as nat);
    let stem = "ledger_"@ + t;
    lemma_parse_nat_text(seq as nat);
    assert(stem.take(7) =~= "ledger_"@);
    assert(stem.skip(7) =~= t);
    lemma_before_underscore(t, t.len() as int);
    assert(t.take(t.len() as int) =~= t);
}

/// A snapshot named for a sequence number and a checksum without
/// underscores (stem `snapshot_`, the number, `_`, the checksum; extension
/// `snap`) is read back as that number and checksum.
pub proof fn lemma_snapshot_name_roundtrip(seq: u64, md5: Seq<char>)
    requires
        no_underscore(md5),
    ensures
        snapshot_name_fields("snapshot_"@ + nat_text(seq as nat) + "_"@ + md5, Some("snap"@)) == Some((seq, md5)),
{
    reveal_strlit("snapshot_");
    reveal_strlit("_");
    let t = nat_text(seq as nat);
    let stem = "snapshot_"@ + t + "_"@ + md5;
    lemma_parse_nat_text(seq as nat);
    assert(stem.take(9) =~= "snapshot_"@);
    let r = stem.skip(9);
    assert(r =~= t + "_"@ + md5);
    assert(r[t.len() as int] == '_');
    lemma_before_underscore(r, t.len() as int);
    assert(r.take(t.len() as int) =~= t);
    assert(r.skip(t.len() as int + 1) =~= md5);
}

} // verus!
