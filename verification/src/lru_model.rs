//! The mathematical model shared by the least-recently-used caches: the
//! cached entries in recency order, least recently used first.
use vstd::prelude::*;
use vstd::laws_eq::obeys_concrete_eq;

verus! {

/// Most entries a cache of capacity `cap` holds: `cap`, but a write always
/// lands, so a zero-capacity cache holds one entry.
pub open spec fn max_entries(cap: usize) -> int {
    if cap >= 1 {
        cap as int
    } else {
        1
    }
}

/// No key occurs twice among the entries.
pub open spec fn distinct_keys<K, V>(s: Seq<(K, V)>) -> bool {
    forall|i: int, j: int| 0 <= i < j < s.len() ==> s[i].0 != s[j].0
}

/// Position of the entry for `k`, or `-1` when `k` is not cached.
pub open spec fn key_index<K, V>(s: Seq<(K, V)>, k: K) -> int {
    if exists|i: int| 0 <= i < s.len() && s[i].0 == k {
        choose|i: int| 0 <= i < s.len() && s[i].0 == k
    } else {
        -1
    }
}

/// The value cached for `k`, if any.
pub open spec fn lookup<K, V>(s: Seq<(K, V)>, k: K) -> Option<V> {
    let i = key_index(s, k);
    if i >= 0 {
        Some(s[i].1)
    } else {
        None
    }
}

/// A read of `k`: a cached entry becomes the most recently used one.
pub open spec fn touch<K, V>(s: Seq<(K, V)>, k: K) -> Seq<(K, V)> {
    let i = key_index(s, k);
    if i >= 0 {
        s.remove(i).push(s[i])
    } else {
        s
    }
}

/// Writes `(k, v)` as the most recently used entry, replacing an older
/// entry for `k`.
pub open spec fn put<K, V>(s: Seq<(K, V)>, k: K, v: V) -> Seq<(K, V)> {
    let i = key_index(s, k);
    if i >= 0 {
        s.remove(i).push((k, v))
    } else {
        s.push((k, v))
    }
}

/// Drops the least recently used entry, if there is one.
pub open spec fn evict_oldest<K, V>(s: Seq<(K, V)>) -> Seq<(K, V)> {
    if s.len() > 0 {
        s.drop_first()
    } else {
        s
    }
}

/// Removes the entry for `k`, if any.
pub open spec fn forget<K, V>(s: Seq<(K, V)>, k: K) -> Seq<(K, V)> {
    let i = key_index(s, k);
    if i >= 0 {
        s.remove(i)
    } else {
        s
    }
}

/// The index found by a scan is the one `key_index` names.
pub proof fn lemma_key_index_unique<K, V>(s: Seq<(K, V)>, k: K, i: int)
    requires
        distinct_keys(s),
        0 <= i < s.len(),
        s[i].0 == k,
    ensures
        key_index(s, k) == i,
{
}

/// No entry has key `k` exactly when `key_index` is `-1`.
pub proof fn lemma_key_index_absent<K, V>(s: Seq<(K, V)>, k: K)
    requires
        forall|i: int| 0 <= i < s.len() ==> s[i].0 != k,
    ensures
        key_index(s, k) == -1,
{
}

/// `key_index` names a matching entry when there is one.
pub proof fn lemma_key_index_found<K, V>(s: Seq<(K, V)>, k: K)
    ensures
        key_index(s, k) == -1 || (0 <= key_index(s, k) < s.len() && s[key_index(s, k)].0 == k),
{
}

/// Removing entries or appending a fresh key keeps keys distinct.
pub proof fn lemma_distinct_remove<K, V>(s: Seq<(K, V)>, i: int)
    requires
        distinct_keys(s),
        0 <= i < s.len(),
    ensures
        distinct_keys(s.remove(i)),
        forall|j: int| 0 <= j < s.remove(i).len() ==> s.remove(i)[j].0 != s[i].0,
{
    assert forall|a: int, b: int| 0 <= a < b < s.remove(i).len() implies s.remove(i)[a].0
        != s.remove(i)[b].0 by {
        let a2 = if a < i { a } else { a + 1 };
        let b2 = if b < i { b } else { b + 1 };
        assert(s.remove(i)[a] == s[a2]);
        assert(s.remove(i)[b] == s[b2]);
    }
    assert forall|j: int| 0 <= j < s.remove(i).len() implies s.remove(i)[j].0 != s[i].0 by {
        let j2 = if j < i { j } else { j + 1 };
        assert(s.remove(i)[j] == s[j2]);
    }
}

/// Writing or reading keeps the keys distinct.
pub proof fn lemma_distinct_put<K, V>(s: Seq<(K, V)>, k: K, v: V)
    requires
        distinct_keys(s),
    ensures
        distinct_keys(put(s, k, v)),
        distinct_keys(touch(s, k)),
        distinct_keys(forget(s, k)),
        distinct_keys(evict_oldest(s)),
{
    let i = key_index(s, k);
    if i >= 0 {
        lemma_distinct_remove(s, i);
    }
    if s.len() > 0 {
        assert forall|a: int, b: int| 0 <= a < b < s.drop_first().len() implies s.drop_first()[a].0
            != s.drop_first()[b].0 by {
            assert(s.drop_first()[a] == s[a + 1]);
            assert(s.drop_first()[b] == s[b + 1]);
        }
    }
}


/// The value looked up for the key of entry `j` is the value of entry `j`.
pub proof fn lemma_lookup_at<K, V>(s: Seq<(K, V)>, j: int)
    requires
        distinct_keys(s),
        0 <= j < s.len(),
    ensures
        lookup(s, s[j].0) == Some(s[j].1),
{
    lemma_key_index_unique(s, s[j].0, j);
}

/// A key that matches no entry looks up nothing.
pub proof fn lemma_lookup_none<K, V>(s: Seq<(K, V)>, k: K)
    requires
        forall|j: int| 0 <= j < s.len() ==> s[j].0 != k,
    ensures
        lookup(s, k) is None,
{
}

/// Looking up `k2` in `s` with entry `i` removed.
proof fn lemma_lookup_remove<K, V>(s: Seq<(K, V)>, i: int, k2: K)
    requires
        distinct_keys(s),
        0 <= i < s.len(),
    ensures
        lookup(s.remove(i), k2) == if k2 == s[i].0 {
            None
        } else {
            lookup(s, k2)
        },
{
    let r = s.remove(i);
    lemma_distinct_remove(s, i);
    lemma_key_index_found(s, k2);
    if k2 == s[i].0 {
        lemma_lookup_none(r, k2);
    } else if key_index(s, k2) >= 0 {
        let j = key_index(s, k2);
        let j2 = if j < i { j } else { j - 1 };
        assert(r[j2] == s[j]);
        lemma_lookup_at(r, j2);
    } else {
        assert forall|m: int| 0 <= m < r.len() implies r[m].0 != k2 by {
            let m2 = if m < i { m } else { m + 1 };
            assert(r[m] == s[m2]);
        }
        lemma_lookup_none(r, k2);
    }
}

/// Looking up `k2` after appending an entry with a fresh key.
proof fn lemma_lookup_push<K, V>(s: Seq<(K, V)>, k: K, v: V, k2: K)
    requires
        distinct_keys(s),
        forall|j: int| 0 <= j < s.len() ==> s[j].0 != k,
    ensures
        distinct_keys(s.push((k, v))),
        lookup(s.push((k, v)), k2) == if k2 == k {
            Some(v)
        } else {
            lookup(s, k2)
        },
{
    let r = s.push((k, v));
    assert(distinct_keys(r));
    lemma_key_index_found(s, k2);
    if k2 == k {
        lemma_lookup_at(r, s.len() as int);
    } else if key_index(s, k2) >= 0 {
        let j = key_index(s, k2);
        assert(r[j] == s[j]);
        lemma_lookup_at(r, j);
    } else {
        lemma_lookup_none(r, k2);
    }
}

/// A write of `(k, v)` is what a later read of `k` returns; other keys keep
/// their values.
pub proof fn lemma_lookup_put<K, V>(s: Seq<(K, V)>, k: K, v: V, k2: K)
    requires
        distinct_keys(s),
    ensures
        distinct_keys(put(s, k, v)),
        lookup(put(s, k, v), k2) == if k2 == k {
            Some(v)
        } else {
            lookup(s, k2)
        },
{
    lemma_key_index_found(s, k);
    let i = key_index(s, k);
    if i >= 0 {
        lemma_distinct_remove(s, i);
        lemma_lookup_remove(s, i, k2);
        lemma_lookup_push(s.remove(i), k, v, k2);
    } else {
        lemma_lookup_push(s, k, v, k2);
    }
}

/// A read changes recency only: every key keeps its value.
pub proof fn lemma_lookup_touch<K, V>(s: Seq<(K, V)>, k: K, k2: K)
    requires
        distinct_keys(s),
    ensures
        distinct_keys(touch(s, k)),
        lookup(touch(s, k), k2) == lookup(s, k2),
{
    lemma_key_index_found(s, k);
    let i = key_index(s, k);
    if i >= 0 {
        lemma_distinct_remove(s, i);
        lemma_lookup_remove(s, i, k2);
        lemma_lookup_push(s.remove(i), s[i].0, s[i].1, k2);
        if k2 == k {
            lemma_lookup_at(s, i);
        }
    }
}

/// After removing `k`, reading `k` finds nothing; other keys are unchanged.
pub proof fn lemma_lookup_forget<K, V>(s: Seq<(K, V)>, k: K, k2: K)
    requires
        distinct_keys(s),
    ensures
        distinct_keys(forget(s, k)),
        lookup(forget(s, k), k2) == if k2 == k {
            None
        } else {
            lookup(s, k2)
        },
{
    lemma_key_index_found(s, k);
    let i = key_index(s, k);
    if i >= 0 {
        lemma_lookup_remove(s, i, k2);
        lemma_distinct_remove(s, i);
    } else {
        if k2 == k {
            lemma_lookup_none(s, k);
        }
    }
}

/// Eviction forgets exactly the least recently used entry.
pub proof fn lemma_lookup_evict<K, V>(s: Seq<(K, V)>, k2: K)
    requires
        distinct_keys(s),
    ensures
        distinct_keys(evict_oldest(s)),
        lookup(evict_oldest(s), k2) == if s.len() > 0 && k2 == s[0].0 {
            None
        } else {
            lookup(s, k2)
        },
{
    if s.len() > 0 {
        assert(s.drop_first() =~= s.remove(0));
        lemma_lookup_remove(s, 0, k2);
        lemma_distinct_remove(s, 0);
    }
}

/// Writing never grows the entries by more than one, and replacing a cached
/// key keeps the count.
pub proof fn lemma_put_len<K, V>(s: Seq<(K, V)>, k: K, v: V)
    ensures
        put(s, k, v).len() == if key_index(s, k) >= 0 {
            s.len()
        } else {
            s.len() + 1
        },
{
    lemma_key_index_found(s, k);
}

/// Position of the entry for `key` among `entries`, if any.
pub fn find_key<K: Eq, V>(entries: &Vec<(K, V)>, key: &K) -> (r: Option<usize>)
    requires
        distinct_keys(entries@),
        obeys_concrete_eq::<K>(),
    ensures
        match r {
            Some(i) => i == key_index(entries@, *key) && i < entries@.len(),
            None => key_index(entries@, *key) == -1,
        },
{
    let mut i: usize = 0;
    while i < entries.len()
        invariant
            distinct_keys(entries@),
            obeys_concrete_eq::<K>(),
            0 <= i <= entries@.len(),
            forall|j: int| 0 <= j < i ==> entries@[j].0 != *key,
        decreases entries@.len() - i,
    {
        proof {
            reveal(obeys_concrete_eq);
        }
        if entries[i].0 == *key {
            proof {
                lemma_key_index_unique(entries@, *key, i as int);
            }
            return Some(i);
        }
        i = i + 1;
    }
    proof {
        lemma_key_index_absent(entries@, *key);
    }
    None
}

/// The entries after writing `(k, v)` into a cache of capacity `cap`: a new
/// key arriving when the cache is full first evicts the least recently used
/// entry; an existing key is overwritten in place of its old entry.
pub open spec fn after_insert<K, V>(s: Seq<(K, V)>, cap: usize, k: K, v: V) -> Seq<(K, V)> {
    if s.len() >= cap && key_index(s, k) < 0 {
        put(evict_oldest(s), k, v)
    } else {
        put(s, k, v)
    }
}

/// Writing into a cache within its size bound keeps it within the bound.
pub proof fn lemma_after_insert_bounded<K, V>(s: Seq<(K, V)>, cap: usize, k: K, v: V)
    requires
        distinct_keys(s),
        s.len() <= max_entries(cap),
    ensures
        after_insert(s, cap, k, v).len() <= max_entries(cap),
{
    lemma_distinct_put(s, k, v);
    lemma_put_len(s, k, v);
    lemma_put_len(evict_oldest(s), k, v);
}

} // verus!
