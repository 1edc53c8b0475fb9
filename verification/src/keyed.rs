//! Ordered keyed collections: the entry-sequence model used for every
//! `IndexMap` keyed by a 128-bit id.
//!
//! An `IndexMap` is modelled by the sequence of its `(key, value)` entries in
//! insertion order. The operations the library uses are stated over that
//! sequence by the generic spec functions below.
use vstd::prelude::*;

verus! {

#[verifier::external_type_specification]
#[verifier::external_body]
#[verifier::reject_recursive_types(K)]
#[verifier::reject_recursive_types(V)]
#[verifier::reject_recursive_types(S)]
pub struct ExIndexMap<K, V, S>(indexmap::IndexMap<K, V, S>);

/// No key occurs twice.
pub open spec fn keys_unique<V>(s: Seq<(u128, V)>) -> bool {
    forall|i: int, j: int| 0 <= i < s.len() && 0 <= j < s.len() && i != j ==> s[i].0 != s[j].0
}

/// Some entry has key `k`.
pub open spec fn has_key<V>(s: Seq<(u128, V)>, k: u128) -> bool {
    exists|i: int| 0 <= i < s.len() && #[trigger] s[i].0 == k
}

/// Position of the entry with key `k` (meaningful when `has_key(s, k)`).
pub open spec fn key_index<V>(s: Seq<(u128, V)>, k: u128) -> int {
    choose|i: int| 0 <= i < s.len() && #[trigger] s[i].0 == k
}

/// The value stored under `k`, if any.
pub open spec fn value_of<V>(s: Seq<(u128, V)>, k: u128) -> Option<V> {
    if has_key(s, k) {
        Some(s[key_index(s, k)].1)
    } else {
        None
    }
}

/// Insertion: an existing key keeps its place and takes the new value; a new
/// key goes last.
pub open spec fn insert_entry<V>(s: Seq<(u128, V)>, k: u128, v: V) -> Seq<(u128, V)> {
    if has_key(s, k) {
        s.update(key_index(s, k), (k, v))
    } else {
        s.push((k, v))
    }
}

/// Removal that shifts the following entries down, keeping their order.
pub open spec fn remove_entry<V>(s: Seq<(u128, V)>, k: u128) -> Seq<(u128, V)> {
    if has_key(s, k) {
        s.remove(key_index(s, k))
    } else {
        s
    }
}

/// The keys, in order.
pub open spec fn keys_of<V>(s: Seq<(u128, V)>) -> Seq<u128> {
    s.map_values(|e: (u128, V)| e.0)
}

pub proof fn lemma_key_index_unique<V>(s: Seq<(u128, V)>, k: u128, i: int)
    requires
        keys_unique(s),
        0 <= i < s.len(),
        s[i].0 == k,
    ensures
        has_key(s, k),
        key_index(s, k) == i,
        value_of(s, k) == Some(s[i].1),
{
    assert(s[i].0 == k);
    let j = key_index(s, k);
    assert(0 <= j < s.len() && s[j].0 == k);
}

pub proof fn lemma_insert_keeps_unique<V>(s: Seq<(u128, V)>, k: u128, v: V)
    requires
        keys_unique(s),
    ensures
        keys_unique(insert_entry(s, k, v)),
        has_key(insert_entry(s, k, v), k),
        value_of(insert_entry(s, k, v), k) == Some(v),
        forall|k2: u128| k2 != k ==> #[trigger] value_of(insert_entry(s, k, v), k2) == value_of(s, k2),
        forall|k2: u128| #[trigger] has_key(insert_entry(s, k, v), k2) == (has_key(s, k2) || k2 == k),
{
    let t = insert_entry(s, k, v);
    if has_key(s, k) {
        let i = key_index(s, k);
        lemma_key_index_unique(t, k, i);
    } else {
        assert(t[s.len() as int].0 == k);
        lemma_key_index_unique(t, k, s.len() as int);
    }
    assert forall|k2: u128| k2 != k implies #[trigger] value_of(t, k2) == value_of(s, k2) by {
        if has_key(s, k2) {
            let i = key_index(s, k2);
            assert(t[i] == s[i]);
            lemma_key_index_unique(t, k2, i);
        } else {
            if has_key(t, k2) {
                let i = key_index(t, k2);
                assert(s[i].0 == k2);
            }
        }
    }
    assert forall|k2: u128| #[trigger] has_key(t, k2) == (has_key(s, k2) || k2 == k) by {
        if has_key(s, k2) {
            let i = key_index(s, k2);
            if k2 != k {
                assert(t[i] == s[i]);
            }
        }
        if has_key(t, k2) && k2 != k {
            let i = key_index(t, k2);
            assert(s[i].0 == k2);
        }
    }
}

pub proof fn lemma_remove_keeps_unique<V>(s: Seq<(u128, V)>, k: u128)
    requires
        keys_unique(s),
    ensures
        keys_unique(remove_entry(s, k)),
        !has_key(remove_entry(s, k), k),
        forall|k2: u128| k2 != k ==> #[trigger] value_of(remove_entry(s, k), k2) == value_of(s, k2),
        forall|k2: u128| #[trigger] has_key(remove_entry(s, k), k2) == (has_key(s, k2) && k2 != k),
{
    let t = remove_entry(s, k);
    if has_key(s, k) {
        let p = key_index(s, k);
        assert forall|i: int, j: int| 0 <= i < t.len() && 0 <= j < t.len() && i != j implies t[i].0
            != t[j].0 by {
            let oi = if i < p { i } else { i + 1 };
            let oj = if j < p { j } else { j + 1 };
            assert(t[i] == s[oi]);
            assert(t[j] == s[oj]);
        }
        assert forall|k2: u128| #[trigger] has_key(t, k2) == (has_key(s, k2) && k2 != k) by {
            if has_key(t, k2) {
                let i = key_index(t, k2);
                let oi = if i < p { i } else { i + 1 };
                assert(t[i] == s[oi]);
                assert(oi != p);
            }
            if has_key(s, k2) && k2 != k {
                let i = key_index(s, k2);
                let ni = if i < p { i } else { i - 1 };
                assert(i != p);
                assert(t[ni] == s[i]);
            }
        }
        assert forall|k2: u128| k2 != k implies #[trigger] value_of(t, k2) == value_of(s, k2) by {
            if has_key(s, k2) {
                let i = key_index(s, k2);
                let ni = if i < p { i } else { i - 1 };
                assert(i != p);
                assert(t[ni] == s[i]);
                lemma_key_index_unique(t, k2, ni);
            }
        }
    }
}

} // verus!

verus! {

/// Looking a key up after inserting or removing: only that key changes.
pub proof fn lemma_value_of_after<V>(s: Seq<(u128, V)>, k: u128, v: V, c: u128)
    requires
        keys_unique(s),
    ensures
        value_of(insert_entry(s, k, v), c) == (if c == k { Some(v) } else { value_of(s, c) }),
        value_of(remove_entry(s, k), c) == (if c == k { None } else { value_of(s, c) }),
        keys_unique(insert_entry(s, k, v)),
        keys_unique(remove_entry(s, k)),
{
    lemma_insert_keeps_unique(s, k, v);
    lemma_remove_keeps_unique(s, k);
    let t = insert_entry(s, k, v);
    let u = remove_entry(s, k);
    if has_key(s, k) {
        let p = key_index(s, k);
        lemma_key_index_unique(s, k, p);
        lemma_key_index_unique(t, k, p);
        if has_key(s, c) && c != k {
            let q = key_index(s, c);
            lemma_key_index_unique(s, c, q);
            lemma_key_index_unique(t, c, q);
            if q < p {
                lemma_key_index_unique(u, c, q);
            } else {
                lemma_key_index_unique(u, c, q - 1);
            }
        }
        if has_key(t, c) && c != k {
            let q = key_index(t, c);
            assert(s[q].0 == c);
        }
        if has_key(u, c) {
            let q = key_index(u, c);
            if q < p {
                assert(s[q].0 == c);
            } else {
                assert(s[q + 1].0 == c);
            }
        }
    } else {
        if has_key(s, c) {
            let q = key_index(s, c);
            lemma_key_index_unique(s, c, q);
            lemma_key_index_unique(t, c, q);
        }
        if c == k {
            lemma_key_index_unique(t, k, s.len() as int);
        } else if has_key(t, c) {
            let q = key_index(t, c);
            assert(s[q].0 == c);
        }
    }
}

pub proof fn lemma_remove_len<V>(s: Seq<(u128, V)>, k: u128)
    ensures
        remove_entry(s, k).len() <= s.len(),
{
}

/// Entries with each value passed through `f`.
pub open spec fn map_vals<V, W>(s: Seq<(u128, V)>, f: spec_fn(V) -> W) -> Seq<(u128, W)> {
    s.map_values(|e: (u128, V)| (e.0, f(e.1)))
}

pub proof fn lemma_map_vals_keys<V, W>(s: Seq<(u128, V)>, f: spec_fn(V) -> W)
    ensures
        keys_unique(s) == keys_unique(map_vals(s, f)),
        forall|k: u128| #[trigger] has_key(map_vals(s, f), k) == has_key(s, k),
{
    let t = map_vals(s, f);
    assert forall|k: u128| #[trigger] has_key(t, k) == has_key(s, k) by {
        if has_key(s, k) {
            let i = key_index(s, k);
            assert(t[i].0 == k);
        }
        if has_key(t, k) {
            let i = key_index(t, k);
            assert(s[i].0 == k);
        }
    }
    if keys_unique(s) {
        assert forall|i: int, j: int| 0 <= i < t.len() && 0 <= j < t.len() && i != j implies t[i].0 != t[j].0 by {
            assert(t[i].0 == s[i].0 && t[j].0 == s[j].0);
        }
    }
    if keys_unique(t) {
        assert forall|i: int, j: int| 0 <= i < s.len() && 0 <= j < s.len() && i != j implies s[i].0 != s[j].0 by {
            assert(t[i].0 == s[i].0 && t[j].0 == s[j].0);
        }
    }
}

/// Mapping values commutes with insertion (for maps without repeated keys).
pub proof fn lemma_map_vals_insert<V, W>(s: Seq<(u128, V)>, k: u128, v: V, f: spec_fn(V) -> W)
    requires
        keys_unique(s),
    ensures
        map_vals(insert_entry(s, k, v), f) == insert_entry(map_vals(s, f), k, f(v)),
{
    let t = map_vals(s, f);
    lemma_map_vals_keys(s, f);
    if has_key(s, k) {
        let i = key_index(s, k);
        lemma_key_index_unique(t, k, i);
        assert(map_vals(insert_entry(s, k, v), f) =~= insert_entry(t, k, f(v)));
    } else {
        assert(map_vals(insert_entry(s, k, v), f) =~= insert_entry(t, k, f(v)));
    }
}

/// Mapping values commutes with removal (for maps without repeated keys).
pub proof fn lemma_map_vals_remove<V, W>(s: Seq<(u128, V)>, k: u128, f: spec_fn(V) -> W)
    requires
        keys_unique(s),
    ensures
        map_vals(remove_entry(s, k), f) == remove_entry(map_vals(s, f), k),
        value_of(map_vals(s, f), k) == (match value_of(s, k) { Some(x) => Some(f(x)), None => None }),
{
    let t = map_vals(s, f);
    lemma_map_vals_keys(s, f);
    if has_key(s, k) {
        let i = key_index(s, k);
        lemma_key_index_unique(t, k, i);
        lemma_key_index_unique(s, k, i);
        assert(map_vals(remove_entry(s, k), f) =~= remove_entry(t, k));
    } else {
        assert(map_vals(remove_entry(s, k), f) =~= remove_entry(t, k));
    }
}

} // verus!
