//! Sequences of keyed values, read as maps.

use vstd::prelude::*;

verus! {

/// The keys of a sequence of keyed values, in order.
pub open spec fn keys_of<K, V>(s: Seq<(K, V)>) -> Seq<K> {
    s.map_values(|e: (K, V)| e.0)
}

/// No key occurs twice.
pub open spec fn distinct<K, V>(s: Seq<(K, V)>) -> bool {
    forall|i: int, j: int|
        0 <= i < s.len() && 0 <= j < s.len() && i != j ==> (#[trigger] s[i]).0 != (#[trigger] s[j]).0
}

/// The key stands at place `i`.
pub open spec fn keyed_at<K, V>(s: Seq<(K, V)>, k: K, i: int) -> bool {
    0 <= i < s.len() && s[i].0 == k
}

/// The map that a sequence of keyed values stands for.
pub open spec fn as_map<K, V>(s: Seq<(K, V)>) -> Map<K, V> {
    Map::new(
        |k: K| exists|i: int| keyed_at(s, k, i),
        |k: K| s[choose|i: int| keyed_at(s, k, i)].1,
    )
}

/// Each place of the sequence is an entry of the map.
pub proof fn lemma_entry<K, V>(s: Seq<(K, V)>, i: int)
    requires
        distinct(s),
        0 <= i < s.len(),
    ensures
        as_map(s).contains_key(s[i].0),
        as_map(s)[s[i].0] == s[i].1,
{
    assert(keyed_at(s, s[i].0, i));
    let j = choose|j: int| keyed_at(s, s[i].0, j);
    assert(j == i);
}

/// Each entry of the map is a place of the sequence.
pub proof fn lemma_place<K, V>(s: Seq<(K, V)>, k: K) -> (i: int)
    requires
        distinct(s),
        as_map(s).contains_key(k),
    ensures
        0 <= i < s.len(),
        s[i].0 == k,
        s[i].1 == as_map(s)[k],
{
    choose|i: int| keyed_at(s, k, i)
}

/// To replace the value at a place is to replace the value of its key.
pub proof fn lemma_update<K, V>(s: Seq<(K, V)>, i: int, v: V)
    requires
        distinct(s),
        0 <= i < s.len(),
    ensures
        distinct(s.update(i, (s[i].0, v))),
        as_map(s.update(i, (s[i].0, v))) == as_map(s).insert(s[i].0, v),
{
    let t = s.update(i, (s[i].0, v));
    assert(distinct(t));
    assert forall|k: K| #[trigger]
        as_map(t).contains_key(k) <==> as_map(s).insert(s[i].0, v).contains_key(k) by {
        if as_map(t).contains_key(k) {
            let j = lemma_place(t, k);
            lemma_entry(s, j);
        }
        if as_map(s).contains_key(k) {
            let j = lemma_place(s, k);
            lemma_entry(t, j);
        }
        lemma_entry(t, i);
    }
    assert forall|k: K| #[trigger]
        as_map(t).contains_key(k) implies as_map(t)[k] == as_map(s).insert(s[i].0, v)[k] by {
        let j = lemma_place(t, k);
        lemma_entry(s, j);
    }
    assert(as_map(t) =~= as_map(s).insert(s[i].0, v));
}

/// To put a new key in at some place is to add an entry to the map.
pub proof fn lemma_insert<K, V>(s: Seq<(K, V)>, i: int, k: K, v: V)
    requires
        distinct(s),
        0 <= i <= s.len(),
        !as_map(s).contains_key(k),
    ensures
        distinct(s.insert(i, (k, v))),
        as_map(s.insert(i, (k, v))) == as_map(s).insert(k, v),
{
    let t = s.insert(i, (k, v));
    assert forall|j: int| 0 <= j < s.len() implies (#[trigger] s[j]).0 != k by {
        assert(!keyed_at(s, k, j));
    }
    assert(distinct(t)) by {
        assert forall|a: int, b: int|
            0 <= a < t.len() && 0 <= b < t.len() && a != b implies (#[trigger] t[a]).0 != (
        #[trigger] t[b]).0 by {
            let x = if a < i {
                a
            } else {
                a - 1
            };
            let y = if b < i {
                b
            } else {
                b - 1
            };
            if a != i {
                assert(t[a] == s[x]);
            }
            if b != i {
                assert(t[b] == s[y]);
            }
        }
    }
    assert forall|q: K| #[trigger]
        as_map(t).contains_key(q) <==> as_map(s).insert(k, v).contains_key(q) by {
        if as_map(t).contains_key(q) && q != k {
            let j = lemma_place(t, q);
            let x = if j < i {
                j
            } else {
                j - 1
            };
            assert(t[j] == s[x]);
            lemma_entry(s, x);
        }
        if as_map(s).contains_key(q) {
            let j = lemma_place(s, q);
            let x = if j < i {
                j
            } else {
                j + 1
            };
            assert(t[x] == s[j]);
            lemma_entry(t, x);
        }
        assert(t[i] == (k, v));
        lemma_entry(t, i);
    }
    assert forall|q: K| #[trigger]
        as_map(t).contains_key(q) implies as_map(t)[q] == as_map(s).insert(k, v)[q] by {
        let j = lemma_place(t, q);
        if q != k {
            let x = if j < i {
                j
            } else {
                j - 1
            };
            assert(t[j] == s[x]);
            lemma_entry(s, x);
        } else {
            assert(t[i] == (k, v));
        }
    }
    assert(as_map(t) =~= as_map(s).insert(k, v));
}

} // verus!
