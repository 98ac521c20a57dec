//! Smallest and largest keys of an ordered map keyed by integers, and
//! taking and putting its entries.

use std::collections::BTreeMap;
use vstd::prelude::*;
use vstd::std_specs::iter::IteratorSpec;
use vstd::std_specs::cmp::OrdSpec;

verus! {

broadcast use vstd::std_specs::btree::group_btree_axioms;

proof fn lemma_increasing_at<K: Ord>(s: Seq<K>, i: int, j: int)
    requires
        vstd::laws_cmp::obeys_cmp::<K>(),
        vstd::std_specs::btree::increasing_seq(s),
        0 <= i < j < s.len(),
    ensures
        s[i].cmp_spec(&s[j]) is Less,
{
    vstd::std_specs::btree::axiom_increasing_seq_meaning(s);
}

/// The smallest key, if any.
pub fn min_key<V>(m: &BTreeMap<u64, V>) -> (res: Option<u64>)
    ensures
        match res {
            Some(k) => m@.contains_key(k) && forall|q: u64| m@.contains_key(q) ==> k <= q,
            None => m@.dom().is_empty(),
        },
{
    broadcast use vstd::laws_cmp::group_laws_cmp;
    for k in it: m.keys()
        invariant
            it.index() == 0,
            it.seq().unref().to_set() == m@.dom(),
        ensures
            m@.dom().is_empty(),
    {
        proof {
            let s = it.seq().unref();
            assert(s.to_set() == m@.dom());
            assert forall|q: u64| m@.contains_key(q) implies *k <= q by {
                assert(s.to_set().contains(q));
                let j = choose|j: int| 0 <= j < s.len() && s[j] == q;
                let r = it.seq();
                assert(vstd::laws_cmp::obeys_cmp::<u64>());
                assert(vstd::laws_cmp::obeys_cmp::<&u64>());
                assert(vstd::std_specs::btree::increasing_seq(r));
                vstd::std_specs::btree::axiom_increasing_seq_meaning(r);
                assert(r.len() == s.len());
                if j > 0 {
                    lemma_increasing_at(r, 0, j);
                }
            }
        }
        return Some(*k);
    }
    None
}

proof fn lemma_prefix_max_covers_all(s: Seq<&u64>, dom: Set<u64>, n: int, b: u64)
    requires
        s.unref().to_set() == dom,
        0 <= n <= s.len(),
        exists|j: int| 0 <= j < n && *s[j] == b,
        forall|j: int| 0 <= j < n ==> *s[j] <= b,
    ensures
        n == s.len() ==> dom.contains(b) && forall|q: u64| dom.contains(q) ==> q <= b,
{
    if n == s.len() {
        let u = s.unref();
        let j0 = choose|j: int| 0 <= j < n && *s[j] == b;
        assert(u[j0] == b);
        assert(u.contains(b));
        assert forall|q: u64| dom.contains(q) implies q <= b by {
            assert(u.to_set().contains(q));
            let j = choose|j: int| 0 <= j < u.len() && u[j] == q;
            assert(*s[j] <= b);
        }
    }
}

/// The largest key, if any.
pub fn max_key<V>(m: &BTreeMap<u64, V>) -> (res: Option<u64>)
    ensures
        match res {
            Some(k) => m@.contains_key(k) && forall|q: u64| m@.contains_key(q) ==> q <= k,
            None => m@.dom().is_empty(),
        },
{
    let mut best: Option<u64> = None;
    for k in it: m.keys()
        invariant
            it.seq().unref().to_set() == m@.dom(),
            best is None <==> it.index() == 0,
            best matches Some(b) ==> {
                &&& exists|j: int| 0 <= j < it.index() && *it.seq()[j] == b
                &&& forall|j: int| 0 <= j < it.index() ==> *it.seq()[j] <= b
            },
            best matches Some(b) ==> (it.index() == it.seq().len() ==> m@.contains_key(b)
                && forall|q: u64| m@.contains_key(q) ==> q <= b),
            best is None ==> (it.index() == it.seq().len() ==> m@.dom().is_empty()),
        ensures
            match best {
                Some(b) => m@.contains_key(b) && forall|q: u64| m@.contains_key(q) ==> q <= b,
                None => m@.dom().is_empty(),
            },
    {
        best = match best {
            Some(b) => if b < *k { Some(*k) } else { Some(b) },
            None => Some(*k),
        };
        assert(best matches Some(b) && (it.index() + 1 == it.seq().len() ==> m@.contains_key(b)
            && forall|q: u64| m@.contains_key(q) ==> q <= b)) by {
            lemma_prefix_max_covers_all(it.seq(), m@.dom(), it.index() + 1, best->0);
        }
    }
    best
}

/// Takes the entry of `k` out of the map.
pub(crate) fn remove_key<V>(m: &mut BTreeMap<u64, V>, k: u64) -> (res: Option<V>)
    ensures
        final(m)@ == old(m)@.remove(k),
        match res {
            Some(v) => old(m)@.contains_key(k) && v == old(m)@[k],
            None => !old(m)@.contains_key(k),
        },
{
    broadcast use vstd::laws_cmp::group_laws_cmp;
    m.remove(&k)
}

/// Puts `v` under `k`, replacing what was there.
pub(crate) fn insert_key<V>(m: &mut BTreeMap<u64, V>, k: u64, v: V)
    ensures
        final(m)@ == old(m)@.insert(k, v),
{
    broadcast use vstd::laws_cmp::group_laws_cmp;
    let _ = m.insert(k, v);
}

} // verus!
