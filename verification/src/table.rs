//! Association tables keyed by account, pool or day identifiers.
//!
//! The ledgers store per-key records as vectors of key/value pairs with
//! unique keys; these helpers give them a common lookup vocabulary.  The
//! spec functions admit any key type; the executable lookups exist for the
//! key shapes the ledgers use.

use vstd::prelude::*;

verus! {

/// Every key appears at most once.
pub open spec fn keyed_unique<K, V>(s: Seq<(K, V)>) -> bool {
    forall|i: int, j: int| 0 <= i < j < s.len() ==> s[i].0 != s[j].0
}

/// Whether `k` is present.
pub open spec fn keyed_has<K, V>(s: Seq<(K, V)>, k: K) -> bool {
    exists|i: int| 0 <= i < s.len() && s[i].0 == k
}

/// Index of `k`'s entry.
pub open spec fn keyed_index<K, V>(s: Seq<(K, V)>, k: K) -> int {
    choose|i: int| 0 <= i < s.len() && s[i].0 == k
}

/// The value stored under `k`.
pub open spec fn keyed_get<K, V>(s: Seq<(K, V)>, k: K) -> V {
    s[keyed_index(s, k)].1
}

/// The table after storing `v` under `k`: updated in place when the key is
/// present, appended otherwise.
pub open spec fn keyed_put<K, V>(s: Seq<(K, V)>, k: K, v: V) -> Seq<(K, V)> {
    if keyed_has(s, k) {
        s.update(keyed_index(s, k), (k, v))
    } else {
        s.push((k, v))
    }
}

/// In a table with unique keys, `keyed_index` resolves to the one witness.
pub proof fn lemma_keyed_index_is<K, V>(s: Seq<(K, V)>, k: K, i: int)
    requires
        keyed_unique(s),
        0 <= i < s.len(),
        s[i].0 == k,
    ensures
        keyed_index(s, k) == i,
        keyed_has(s, k),
{
    assert(0 <= i < s.len() && s[i].0 == k);
    let j = keyed_index(s, k);
    if j != i {
        assert(s[i].0 != s[j].0);
    }
}

/// Updating an entry in place keeps the keys unique.
pub proof fn lemma_keyed_update_unique<K, V>(s: Seq<(K, V)>, i: int, v: V)
    requires
        keyed_unique(s),
        0 <= i < s.len(),
    ensures
        keyed_unique(s.update(i, (s[i].0, v))),
{
}

/// Appending a fresh key keeps the keys unique.
pub proof fn lemma_keyed_push_unique<K, V>(s: Seq<(K, V)>, k: K, v: V)
    requires
        keyed_unique(s),
        !keyed_has(s, k),
    ensures
        keyed_unique(s.push((k, v))),
{
    let t = s.push((k, v));
    assert forall|i: int, j: int| 0 <= i < j < t.len() implies t[i].0 != t[j].0 by {
        if j == t.len() - 1 {
            assert(t[i] == s[i]);
        }
    }
}

/// Storing under a key keeps the keys unique and makes the key present with
/// the stored value.
pub proof fn lemma_keyed_put<K, V>(s: Seq<(K, V)>, k: K, v: V)
    requires
        keyed_unique(s),
    ensures
        keyed_unique(keyed_put(s, k, v)),
        keyed_has(keyed_put(s, k, v), k),
        keyed_get(keyed_put(s, k, v), k) == v,
{
    let t = keyed_put(s, k, v);
    if keyed_has(s, k) {
        let i = keyed_index(s, k);
        lemma_keyed_update_unique(s, i, v);
        assert(t == s.update(i, (s[i].0, v)));
        lemma_keyed_index_is(t, k, i);
    } else {
        lemma_keyed_push_unique(s, k, v);
        lemma_keyed_index_is(t, k, s.len() as int);
    }
}

/// Find the entry holding key `k`.
pub fn keyed_find<V>(v: &Vec<(u64, V)>, k: u64) -> (r: Option<usize>)
    ensures
        match r {
            Some(i) => i < v@.len() && v@[i as int].0 == k,
            None => !keyed_has(v@, k),
        },
{
    let n = v.len();
    let mut j: usize = 0;
    while j < n
        invariant
            0 <= j <= n,
            n == v@.len(),
            forall|t: int| 0 <= t < j ==> (#[trigger] v@[t]).0 != k,
        decreases n - j,
    {
        if v[j].0 == k {
            return Some(j);
        }
        j = j + 1;
    }
    None
}

/// Store `val` under key `k`.
pub fn keyed_store<V>(v: &mut Vec<(u64, V)>, k: u64, val: V)
    requires
        keyed_unique(old(v)@),
    ensures
        keyed_unique(final(v)@),
        final(v)@ == keyed_put(old(v)@, k, val),
        keyed_has(final(v)@, k),
        keyed_get(final(v)@, k) == val,
{
    proof {
        lemma_keyed_put(v@, k, val);
    }
    match keyed_find(v, k) {
        Some(i) => {
            proof {
                lemma_keyed_index_is(v@, k, i as int);
            }
            v[i] = (k, val);
        },
        None => {
            v.push((k, val));
        },
    }
}

/// Find the entry holding the account/index pair key `k`.
pub fn indexed_find<V>(v: &Vec<((u64, u32), V)>, k0: u64, k1: u32) -> (r: Option<usize>)
    ensures
        match r {
            Some(i) => i < v@.len() && v@[i as int].0 == (k0, k1),
            None => !keyed_has(v@, (k0, k1)),
        },
{
    let n = v.len();
    let mut j: usize = 0;
    while j < n
        invariant
            0 <= j <= n,
            n == v@.len(),
            forall|t: int| 0 <= t < j ==> (#[trigger] v@[t]).0 != (k0, k1),
        decreases n - j,
    {
        if v[j].0.0 == k0 && v[j].0.1 == k1 {
            return Some(j);
        }
        j = j + 1;
    }
    None
}

/// Store `val` under the account/index pair key.
pub fn indexed_store<V>(v: &mut Vec<((u64, u32), V)>, k0: u64, k1: u32, val: V)
    requires
        keyed_unique(old(v)@),
    ensures
        keyed_unique(final(v)@),
        final(v)@ == keyed_put(old(v)@, (k0, k1), val),
        keyed_has(final(v)@, (k0, k1)),
        keyed_get(final(v)@, (k0, k1)) == val,
{
    proof {
        lemma_keyed_put(v@, (k0, k1), val);
    }
    match indexed_find(v, k0, k1) {
        Some(i) => {
            proof {
                lemma_keyed_index_is(v@, (k0, k1), i as int);
            }
            v[i] = ((k0, k1), val);
        },
        None => {
            v.push(((k0, k1), val));
        },
    }
}

/// Find the entry holding the account/pool pair key `k`.
pub fn paired_find<V>(v: &Vec<((u64, u64), V)>, k0: u64, k1: u64) -> (r: Option<usize>)
    ensures
        match r {
            Some(i) => i < v@.len() && v@[i as int].0 == (k0, k1),
            None => !keyed_has(v@, (k0, k1)),
        },
{
    let n = v.len();
    let mut j: usize = 0;
    while j < n
        invariant
            0 <= j <= n,
            n == v@.len(),
            forall|t: int| 0 <= t < j ==> (#[trigger] v@[t]).0 != (k0, k1),
        decreases n - j,
    {
        if v[j].0.0 == k0 && v[j].0.1 == k1 {
            return Some(j);
        }
        j = j + 1;
    }
    None
}

/// Store `val` under the account/pool pair key.
pub fn paired_store<V>(v: &mut Vec<((u64, u64), V)>, k0: u64, k1: u64, val: V)
    requires
        keyed_unique(old(v)@),
    ensures
        keyed_unique(final(v)@),
        final(v)@ == keyed_put(old(v)@, (k0, k1), val),
        keyed_has(final(v)@, (k0, k1)),
        keyed_get(final(v)@, (k0, k1)) == val,
{
    proof {
        lemma_keyed_put(v@, (k0, k1), val);
    }
    match paired_find(v, k0, k1) {
        Some(i) => {
            proof {
                lemma_keyed_index_is(v@, (k0, k1), i as int);
            }
            v[i] = ((k0, k1), val);
        },
        None => {
            v.push(((k0, k1), val));
        },
    }
}


/// Remove the entry under the account/pool pair key, if present.
pub fn paired_remove<V>(v: &mut Vec<((u64, u64), V)>, k0: u64, k1: u64)
    requires
        keyed_unique(old(v)@),
    ensures
        keyed_unique(final(v)@),
        keyed_has(old(v)@, (k0, k1)) ==> final(v)@ == old(v)@.remove(
            keyed_index(old(v)@, (k0, k1)),
        ),
        !keyed_has(old(v)@, (k0, k1)) ==> final(v)@ == old(v)@,
        !keyed_has(final(v)@, (k0, k1)),
{
    match paired_find(v, k0, k1) {
        Some(i) => {
            proof {
                lemma_keyed_index_is(v@, (k0, k1), i as int);
            }
            v.remove(i);
            proof {
                assert forall|a: int, b: int|
                    0 <= a < b < v@.len() implies (#[trigger] v@[a]).0 != (#[trigger] v@[b]).0 by {
                    if a < i as int {
                        assert(v@[a] == old(v)@[a]);
                    } else {
                        assert(v@[a] == old(v)@[a + 1]);
                    }
                    if b < i as int {
                        assert(v@[b] == old(v)@[b]);
                    } else {
                        assert(v@[b] == old(v)@[b + 1]);
                    }
                }
                assert forall|a: int| 0 <= a < v@.len() implies (#[trigger] v@[a]).0 != (
                k0,
                k1,
                ) by {
                    if a < i as int {
                        assert(v@[a] == old(v)@[a]);
                    } else {
                        assert(v@[a] == old(v)@[a + 1]);
                    }
                }
            }
        },
        None => {
        },
    }
}

} // verus!
