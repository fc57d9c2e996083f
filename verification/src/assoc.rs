//! Association lists read as maps.
//!
//! The ledger keeps its tables as vectors of entries, each key at most
//! once. These spec functions and lemmas say which map such a sequence of
//! entries stands for, and what pushing, replacing and removing an entry
//! does to that map.

use vstd::prelude::*;

verus! {

/// No key occurs twice.
pub open spec fn distinct_keys<K, V>(s: Seq<(K, V)>) -> bool {
    forall|i: int, j: int| 0 <= i < j < s.len() ==> (#[trigger] s[i]).0 != (#[trigger] s[j]).0
}

/// Some entry has the key `k`.
pub open spec fn has_key<K, V>(s: Seq<(K, V)>, k: K) -> bool {
    exists|i: int| 0 <= i < s.len() && (#[trigger] s[i]).0 == k
}

/// The map that the entries stand for: each key with the value of an
/// entry that has it.
pub open spec fn to_map<K, V>(s: Seq<(K, V)>) -> Map<K, V> {
    Map::new(
        |k: K| has_key(s, k),
        |k: K| s[choose|i: int| 0 <= i < s.len() && (#[trigger] s[i]).0 == k].1,
    )
}

/// With distinct keys, the map holds each entry's value under its key.
pub proof fn lemma_entry<K, V>(s: Seq<(K, V)>, i: int)
    requires
        distinct_keys(s),
        0 <= i < s.len(),
    ensures
        to_map(s).dom().contains(s[i].0),
        to_map(s)[s[i].0] == s[i].1,
{
    let k = s[i].0;
    assert(has_key(s, k));
    let c = choose|c: int| 0 <= c < s.len() && (#[trigger] s[c]).0 == k;
    assert(c == i);
}

/// No entries, no keys.
pub proof fn lemma_empty<K, V>(s: Seq<(K, V)>)
    requires
        s.len() == 0,
    ensures
        to_map(s) == Map::<K, V>::empty(),
        distinct_keys(s),
{
    assert(to_map(s) =~= Map::<K, V>::empty());
}

/// Pushing an entry under a new key inserts it into the map.
pub proof fn lemma_push<K, V>(s: Seq<(K, V)>, k: K, v: V)
    requires
        distinct_keys(s),
        !has_key(s, k),
    ensures
        distinct_keys(s.push((k, v))),
        to_map(s.push((k, v))) == to_map(s).insert(k, v),
{
    let t = s.push((k, v));
    assert(distinct_keys(t)) by {
        assert forall|i: int, j: int| 0 <= i < j < t.len() implies (#[trigger] t[i]).0 != (
        #[trigger] t[j]).0 by {
            if j < s.len() {
                assert(s[i].0 != s[j].0);
            } else {
                assert(s[i].0 != k);
            }
        }
    }
    assert forall|q: K| #[trigger] to_map(t).dom().contains(q) <==> to_map(s).insert(
        k,
        v,
    ).dom().contains(q) by {
        if has_key(t, q) {
            let i = choose|i: int| 0 <= i < t.len() && (#[trigger] t[i]).0 == q;
            if i < s.len() {
                assert(s[i].0 == q);
            }
        }
        if has_key(s, q) {
            let i = choose|i: int| 0 <= i < s.len() && (#[trigger] s[i]).0 == q;
            assert(t[i].0 == q);
        }
        if q == k {
            assert(t[s.len() as int].0 == q);
        }
    }
    assert forall|q: K| to_map(t).dom().contains(q) implies #[trigger] to_map(t)[q] == to_map(
        s,
    ).insert(k, v)[q] by {
        let i = choose|i: int| 0 <= i < t.len() && (#[trigger] t[i]).0 == q;
        lemma_entry(t, i);
        if i < s.len() {
            assert(s[i] == t[i]);
            lemma_entry(s, i);
        }
    }
    assert(to_map(t) =~= to_map(s).insert(k, v));
}

/// Replacing the value of entry `i` replaces it in the map.
pub proof fn lemma_update<K, V>(s: Seq<(K, V)>, i: int, v: V)
    requires
        distinct_keys(s),
        0 <= i < s.len(),
    ensures
        distinct_keys(s.update(i, (s[i].0, v))),
        to_map(s.update(i, (s[i].0, v))) == to_map(s).insert(s[i].0, v),
{
    let k = s[i].0;
    let t = s.update(i, (k, v));
    assert(distinct_keys(t)) by {
        assert forall|a: int, b: int| 0 <= a < b < t.len() implies (#[trigger] t[a]).0 != (
        #[trigger] t[b]).0 by {
            assert(s[a].0 != s[b].0);
        }
    }
    assert forall|q: K| #[trigger] to_map(t).dom().contains(q) <==> to_map(s).insert(
        k,
        v,
    ).dom().contains(q) by {
        if has_key(t, q) {
            let j = choose|j: int| 0 <= j < t.len() && (#[trigger] t[j]).0 == q;
            assert(s[j].0 == q);
        }
        if has_key(s, q) {
            let j = choose|j: int| 0 <= j < s.len() && (#[trigger] s[j]).0 == q;
            assert(t[j].0 == q);
        }
        if q == k {
            assert(t[i].0 == q);
        }
    }
    assert forall|q: K| to_map(t).dom().contains(q) implies #[trigger] to_map(t)[q] == to_map(
        s,
    ).insert(k, v)[q] by {
        let j = choose|j: int| 0 <= j < t.len() && (#[trigger] t[j]).0 == q;
        lemma_entry(t, j);
        if j != i {
            assert(s[j] == t[j]);
            lemma_entry(s, j);
        }
    }
    assert(to_map(t) =~= to_map(s).insert(k, v));
}

/// Removing entry `i` removes its key from the map.
pub proof fn lemma_remove<K, V>(s: Seq<(K, V)>, i: int)
    requires
        distinct_keys(s),
        0 <= i < s.len(),
    ensures
        distinct_keys(s.remove(i)),
        to_map(s.remove(i)) == to_map(s).remove(s[i].0),
{
    let k = s[i].0;
    let t = s.remove(i);
    assert(distinct_keys(t)) by {
        assert forall|a: int, b: int| 0 <= a < b < t.len() implies (#[trigger] t[a]).0 != (
        #[trigger] t[b]).0 by {
            let sa = if a < i { a } else { a + 1 };
            let sb = if b < i { b } else { b + 1 };
            assert(t[a] == s[sa] && t[b] == s[sb]);
            assert(s[sa].0 != s[sb].0);
        }
    }
    assert forall|q: K| #[trigger] to_map(t).dom().contains(q) <==> to_map(s).remove(
        k,
    ).dom().contains(q) by {
        if has_key(t, q) {
            let j = choose|j: int| 0 <= j < t.len() && (#[trigger] t[j]).0 == q;
            let sj = if j < i { j } else { j + 1 };
            assert(s[sj] == t[j]);
            assert(s[sj].0 == q);
            if sj < i {
                assert(s[sj].0 != s[i].0);
            } else {
                assert(s[i].0 != s[sj].0);
            }
        }
        if has_key(s, q) && q != k {
            let j = choose|j: int| 0 <= j < s.len() && (#[trigger] s[j]).0 == q;
            let tj = if j < i { j } else { j - 1 };
            assert(t[tj] == s[j]);
            assert(t[tj].0 == q);
        }
    }
    assert forall|q: K| to_map(t).dom().contains(q) implies #[trigger] to_map(t)[q] == to_map(
        s,
    ).remove(k)[q] by {
        let j = choose|j: int| 0 <= j < t.len() && (#[trigger] t[j]).0 == q;
        lemma_entry(t, j);
        let sj = if j < i { j } else { j + 1 };
        assert(s[sj] == t[j]);
        lemma_entry(s, sj);
    }
    assert(to_map(t) =~= to_map(s).remove(k));
}

} // verus!
