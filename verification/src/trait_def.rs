//! Core strategy definitions: errors, time resolution, the per-context
//! least-recently-used cache and the strategy logger.
use vstd::prelude::*;
use vstd::laws_eq::obeys_concrete_eq;
use std::hash::Hash;
use crate::lru_model::{
    distinct_keys, lookup, after_insert, lemma_after_insert_bounded, touch, put, evict_oldest, forget, lemma_key_index_absent,
    lemma_distinct_put, find_key, max_entries, lemma_put_len, lemma_key_index_found, lemma_lookup_evict, lemma_lookup_put, lemma_lookup_touch, lemma_lookup_forget,
};
use crate::types::InstrumentId;

verus! {

/// What the registry reads of a strategy: its name and the version it
/// reports.
pub trait Strategy {
    fn name(&self) -> &str;

    fn version(&self) -> u32;
}

/// Strategy evaluation error.
#[derive(Debug)]
pub enum StrategyError {
    InvalidInstrument(String),
    CacheMiss(String),
    DataSource(String),
}

/// Error reported by a historical data source.
#[derive(Debug, Clone)]
pub struct DataSourceError {
    pub source: String,
    pub message: String,
}

/// Granularity types for time resolution.
#[derive(Debug, Clone, Copy, PartialEq, Eq)]
pub enum Granularity {
    Tick,
    Minute(u32),
    Hour(u32),
    Day,
}

impl Default for Granularity {
    fn default() -> (r: Self)
        ensures
            r == Granularity::Minute(1),
    {
        Granularity::Minute(1)
    }
}

/// Least-recently-used cache: when full, inserting a new key evicts the entry
/// that was read or written longest ago.
pub struct LruCache<K, V> {
    /// Entries in recency order, least recently used first.
    entries: Vec<(K, V)>,
    capacity: usize,
}

impl<K, V> View for LruCache<K, V> {
    type V = Seq<(K, V)>;

    /// The cached entries, least recently used first.
    closed spec fn view(&self) -> Seq<(K, V)> {
        self.entries@
    }
}

impl<K: Eq + Hash + Clone, V: Clone> LruCache<K, V> {
    /// Keys are distinct and compare by value.
    pub closed spec fn wf(&self) -> bool {
        &&& distinct_keys(self.entries@)
        &&& obeys_concrete_eq::<K>()
        &&& self.entries@.len() <= max_entries(self.capacity)
    }

    /// The configured capacity.
    pub closed spec fn cap(&self) -> usize {
        self.capacity
    }

    pub fn new(capacity: usize) -> (r: Self)
        requires
            obeys_concrete_eq::<K>(),
        ensures
            r.wf(),
            r@ == Seq::<(K, V)>::empty(),
            r.cap() == capacity,
    {
        Self { entries: Vec::new(), capacity }
    }

    /// Reads the value for `key`, making it the most recently used entry.
    pub fn get(&mut self, key: &K) -> (r: Option<&V>)
        requires
            old(self).wf(),
        ensures
            final(self).wf(),
            final(self).cap() == old(self).cap(),
            final(self)@ == touch(old(self)@, *key),
            r is Some <==> lookup(old(self)@, *key) is Some,
            r matches Some(v) ==> *v == lookup(old(self)@, *key)->0,
    {
        match find_key(&self.entries, key) {
            None => None,
            Some(i) => {
                proof {
                    lemma_distinct_put(self.entries@, *key, self.entries@[i as int].1);
                }
                let entry = self.entries.remove(i);
                self.entries.push(entry);
                let last = self.entries.len() - 1;
                Some(&self.entries[last].1)
            },
        }
    }

    /// Writes `value` for `key`. A new key arriving when the cache holds
    /// `capacity` entries first evicts the least recently used entry.
    pub fn insert(&mut self, key: K, value: V)
        requires
            old(self).wf(),
        ensures
            final(self).wf(),
            final(self).cap() == old(self).cap(),
            final(self)@ == after_insert(old(self)@, old(self).cap(), key, value),
    {
        let found = find_key(&self.entries, &key);
        if self.entries.len() >= self.capacity && found.is_none() {
            if self.entries.len() > 0 {
                proof {
                    lemma_distinct_put(self.entries@, key, value);
                }
                self.entries.remove(0);
                proof {
                    lemma_key_index_absent(self.entries@, key);
                }
            }
        }
        let found = find_key(&self.entries, &key);
        proof {
            lemma_distinct_put(self.entries@, key, value);
        }
        match found {
            Some(i) => {
                self.entries.remove(i);
            },
            None => {},
        }
        self.entries.push((key, value));
        proof {
            lemma_after_insert_bounded(old(self)@, old(self).capacity, key, value);
        }
    }

    /// Removes and returns the value for `key`.
    pub fn remove(&mut self, key: &K) -> (r: Option<V>)
        requires
            old(self).wf(),
        ensures
            final(self).wf(),
            final(self).cap() == old(self).cap(),
            final(self)@ == forget(old(self)@, *key),
            r == lookup(old(self)@, *key),
    {
        match find_key(&self.entries, key) {
            None => None,
            Some(i) => {
                proof {
                    lemma_distinct_put(self.entries@, *key, self.entries@[i as int].1);
                }
                let (_, v) = self.entries.remove(i);
                Some(v)
            },
        }
    }

    pub fn len(&self) -> (r: usize)
        ensures
            r == self@.len(),
    {
        self.entries.len()
    }

    pub fn is_empty(&self) -> (r: bool)
        ensures
            r == (self@.len() == 0),
    {
        self.entries.len() == 0
    }
}


/// The cache never holds more than its capacity (one entry when the capacity
/// is zero).
pub proof fn lemma_cache_bounded<K: Eq + Hash + Clone, V: Clone>(c: &LruCache<K, V>)
    requires
        c.wf(),
    ensures
        c@.len() <= max_entries(c.cap()),
{
}

/// A written value is what the next read of its key returns; every other key
/// keeps its value, except the least recently used entry when the write stores a new key in a full cache.
pub proof fn lemma_write_then_read<K: Eq + Hash + Clone, V: Clone>(
    c: &LruCache<K, V>,
    k: K,
    v: V,
    k2: K,
)
    requires
        c.wf(),
    ensures
        lookup(after_insert(c@, c.cap(), k, v), k2) == if k2 == k {
            Some(v)
        } else if c@.len() >= c.cap() && lookup(c@, k) is None && c@.len() > 0 && k2 == c@[0].0 {
            None
        } else {
            lookup(c@, k2)
        },
{
    lemma_key_index_found(c@, k);
    lemma_lookup_evict(c@, k2);
    lemma_lookup_put(c@, k, v, k2);
    lemma_lookup_put(evict_oldest(c@), k, v, k2);
}

/// Reading changes only recency: every key keeps its value.
pub proof fn lemma_read_keeps_values<K: Eq + Hash + Clone, V: Clone>(c: &LruCache<K, V>, k: K, k2: K)
    requires
        c.wf(),
    ensures
        lookup(touch(c@, k), k2) == lookup(c@, k2),
{
    lemma_lookup_touch(c@, k, k2);
}

/// After a key is removed, reading it finds nothing; other keys keep their
/// values.
pub proof fn lemma_remove_forgets<K: Eq + Hash + Clone, V: Clone>(c: &LruCache<K, V>, k: K, k2: K)
    requires
        c.wf(),
    ensures
        lookup(forget(c@, k), k2) == if k2 == k {
            None
        } else {
            lookup(c@, k2)
        },
{
    lemma_lookup_forget(c@, k, k2);
}

/// Strategy logger for tracing.
#[derive(Debug, Clone)]
pub struct StrategyLogger {
    instrument: InstrumentId,
    strategy_id: String,
}

impl StrategyLogger {
    /// The instrument the logger reports on.
    pub closed spec fn instrument(&self) -> InstrumentId {
        self.instrument
    }

    /// The strategy the logger reports for.
    pub closed spec fn strategy_id(&self) -> Seq<char> {
        self.strategy_id@
    }

    pub fn new(instrument: InstrumentId) -> (r: Self)
        ensures
            r.instrument() == instrument,
            r.strategy_id() == "unknown"@,
    {
        Self { instrument, strategy_id: String::from_str("unknown") }
    }

    pub fn set_strategy_id(&mut self, id: String)
        ensures
            final(self).strategy_id() == id@,
            final(self).instrument() == old(self).instrument(),
    {
        self.strategy_id = id;
    }
}

} // verus!
