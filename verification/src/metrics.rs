//! Per-strategy performance counters and a registry of them.
use vstd::prelude::*;
use vstd::hash_map::StringHashMap;
use std::time::{Duration, Instant};

verus! {

/// Wall-clock instants, carried opaquely.
#[verifier::external_type_specification]
#[verifier::external_body]
pub struct ExInstant(Instant);

/// `Instant::now`: the current instant. Nothing is promised of it.
#[verifier::external_body]
fn instant_now() -> Instant {
    Instant::now()
}

/// `Instant::elapsed`: the time since `start`. Nothing is promised of it.
#[verifier::external_body]
fn instant_elapsed(start: &Instant) -> Duration {
    start.elapsed()
}

/// The whole nanoseconds a duration spans.
pub uninterp spec fn duration_as_nanos(duration: Duration) -> u128;

/// `Duration::as_nanos`: the named `duration_as_nanos` of the duration.
#[verifier::external_body]
fn duration_nanos(duration: &Duration) -> (r: u128)
    ensures
        r == duration_as_nanos(*duration),
{
    duration.as_nanos()
}

/// The nanoseconds of `duration` as the counters keep them: the low 64 bits.
pub open spec fn counted_nanos(duration: Duration) -> u64 {
    duration_as_nanos(duration) as u64
}

/// A simple wall-clock timer for measuring `evaluate()` call duration.
pub struct EvaluationTimer {
    start: Instant,
}

impl EvaluationTimer {
    /// Start the timer.
    pub fn start() -> Self {
        Self { start: instant_now() }
    }

    /// Stop the timer and return the elapsed duration.
    pub fn stop(self) -> Duration {
        instant_elapsed(&self.start)
    }
}

/// Counters and accumulators for a single strategy.
#[derive(Debug, Clone, Copy)]
pub struct StrategyMetrics {
    pub evaluations: u64,
    pub signals_generated: u64,
    pub signals_suppressed: u64,
    pub errors: u64,
    pub total_eval_ns: u64,
    pub cache_hits: u64,
    pub cache_misses: u64,
}

/// All counters start at zero.
pub open spec fn zero_metrics() -> StrategyMetrics {
    StrategyMetrics {
        evaluations: 0,
        signals_generated: 0,
        signals_suppressed: 0,
        errors: 0,
        total_eval_ns: 0,
        cache_hits: 0,
        cache_misses: 0,
    }
}

/// The counters after one evaluation that took `ns` nanoseconds: an error
/// counts as an error whether or not a signal came with it; otherwise the
/// evaluation produced or suppressed a signal. The time total saturates.
pub open spec fn after_evaluation(m: StrategyMetrics, ns: u64, signal_produced: bool, error: bool) -> StrategyMetrics {
    StrategyMetrics {
        evaluations: (m.evaluations + 1) as u64,
        total_eval_ns: if m.total_eval_ns + ns <= u64::MAX {
            (m.total_eval_ns + ns) as u64
        } else {
            u64::MAX
        },
        errors: if error {
            (m.errors + 1) as u64
        } else {
            m.errors
        },
        signals_generated: if !error && signal_produced {
            (m.signals_generated + 1) as u64
        } else {
            m.signals_generated
        },
        signals_suppressed: if !error && !signal_produced {
            (m.signals_suppressed + 1) as u64
        } else {
            m.signals_suppressed
        },
        ..m
    }
}

/// Every counter of an evaluation can still be incremented.
pub open spec fn can_record_evaluation(m: StrategyMetrics) -> bool {
    &&& m.evaluations < u64::MAX
    &&& m.errors < u64::MAX
    &&& m.signals_generated < u64::MAX
    &&& m.signals_suppressed < u64::MAX
}

/// Each evaluation is counted exactly once as an error, a produced signal or
/// a suppressed signal.
pub open spec fn outcomes_balance(m: StrategyMetrics) -> bool {
    m.evaluations == m.errors + m.signals_generated + m.signals_suppressed
}

impl Default for StrategyMetrics {
    fn default() -> (r: Self)
        ensures
            r == zero_metrics(),
    {
        StrategyMetrics {
            evaluations: 0,
            signals_generated: 0,
            signals_suppressed: 0,
            errors: 0,
            total_eval_ns: 0,
            cache_hits: 0,
            cache_misses: 0,
        }
    }
}

impl StrategyMetrics {
    /// Record a single evaluation.
    pub fn record_evaluation(&mut self, duration: Duration, signal_produced: bool, error: bool)
        requires
            can_record_evaluation(*old(self)),
        ensures
            *final(self) == after_evaluation(*old(self), counted_nanos(duration), signal_produced, error),
    {
        let ns = duration_nanos(&duration) as u64;
        self.record_evaluation_ns(ns, signal_produced, error);
    }

    /// Record a single evaluation that took `ns` nanoseconds.
    pub fn record_evaluation_ns(&mut self, ns: u64, signal_produced: bool, error: bool)
        requires
            can_record_evaluation(*old(self)),
        ensures
            *final(self) == after_evaluation(*old(self), ns, signal_produced, error),
    {
        self.evaluations = self.evaluations + 1;
        self.total_eval_ns = self.total_eval_ns.saturating_add(ns);
        if error {
            self.errors = self.errors + 1;
        } else if signal_produced {
            self.signals_generated = self.signals_generated + 1;
        } else {
            self.signals_suppressed = self.signals_suppressed + 1;
        }
    }

    pub fn record_cache_hit(&mut self)
        requires
            old(self).cache_hits < u64::MAX,
        ensures
            *final(self) == (StrategyMetrics { cache_hits: (old(self).cache_hits + 1) as u64, ..*old(self) }),
    {
        self.cache_hits = self.cache_hits + 1;
    }

    pub fn record_cache_miss(&mut self)
        requires
            old(self).cache_misses < u64::MAX,
        ensures
            *final(self) == (StrategyMetrics { cache_misses: (old(self).cache_misses + 1) as u64, ..*old(self) }),
    {
        self.cache_misses = self.cache_misses + 1;
    }
}

/// Recording an evaluation keeps every evaluation counted under exactly one
/// outcome.
pub proof fn lemma_outcomes_balance(m: StrategyMetrics, ns: u64, signal_produced: bool, error: bool)
    requires
        outcomes_balance(m),
        can_record_evaluation(m),
    ensures
        outcomes_balance(after_evaluation(m, ns, signal_produced, error)),
{
}

/// Registry of per-strategy metrics, keyed by strategy id.
pub struct MetricsRegistry {
    entries: Vec<(String, StrategyMetrics)>,
}

/// No strategy id occurs twice among the entries.
pub open spec fn ids_distinct(s: Seq<(String, StrategyMetrics)>) -> bool {
    forall|i: int, j: int| 0 <= i < j < s.len() ==> s[i].0@ != s[j].0@
}

/// The metrics recorded for each strategy id.
pub open spec fn registry_map(s: Seq<(String, StrategyMetrics)>) -> Map<Seq<char>, StrategyMetrics> {
    Map::new(
        |id: Seq<char>| exists|i: int| 0 <= i < s.len() && s[i].0@ == id,
        |id: Seq<char>| s[choose|i: int| 0 <= i < s.len() && s[i].0@ == id].1,
    )
}

impl View for MetricsRegistry {
    type V = Map<Seq<char>, StrategyMetrics>;

    closed spec fn view(&self) -> Map<Seq<char>, StrategyMetrics> {
        registry_map(self.entries@)
    }
}

/// The metrics of `id`, starting from zero for a strategy not seen yet.
pub open spec fn metrics_of(m: Map<Seq<char>, StrategyMetrics>, id: Seq<char>) -> StrategyMetrics {
    if m.contains_key(id) {
        m[id]
    } else {
        zero_metrics()
    }
}

/// The registry map at a stored entry is that entry's metrics.
proof fn lemma_map_at(s: Seq<(String, StrategyMetrics)>, i: int)
    requires
        ids_distinct(s),
        0 <= i < s.len(),
    ensures
        registry_map(s).contains_key(s[i].0@),
        registry_map(s)[s[i].0@] == s[i].1,
{
}

/// Overwriting the metrics of entry `i` updates that id only.
proof fn lemma_map_update(s: Seq<(String, StrategyMetrics)>, i: int, e: (String, StrategyMetrics))
    requires
        ids_distinct(s),
        0 <= i < s.len(),
        e.0@ == s[i].0@,
    ensures
        ids_distinct(s.update(i, e)),
        registry_map(s.update(i, e)) == registry_map(s).insert(e.0@, e.1),
{
    let t = s.update(i, e);
    assert forall|a: int, b: int| 0 <= a < b < t.len() implies t[a].0@ != t[b].0@ by {}
    assert forall|id: Seq<char>| #[trigger] registry_map(t).contains_key(id)
        == registry_map(s).insert(e.0@, e.1).contains_key(id) by {
        if registry_map(s).contains_key(id) {
            let k = choose|k: int| 0 <= k < s.len() && s[k].0@ == id;
            assert(t[k].0@ == id);
        }
        if registry_map(t).contains_key(id) {
            let k = choose|k: int| 0 <= k < t.len() && t[k].0@ == id;
            assert(s[k].0@ == id);
        }
    }
    assert forall|id: Seq<char>| #[trigger] registry_map(t).contains_key(id) implies registry_map(t)[id]
        == registry_map(s).insert(e.0@, e.1)[id] by {
        let k = choose|k: int| 0 <= k < t.len() && t[k].0@ == id;
        lemma_map_at(t, k);
        if k != i {
            lemma_map_at(s, k);
        }
    }
    assert(registry_map(t) =~= registry_map(s).insert(e.0@, e.1));
}

/// Appending an entry for a new id adds that id only.
proof fn lemma_map_push(s: Seq<(String, StrategyMetrics)>, e: (String, StrategyMetrics))
    requires
        ids_distinct(s),
        !registry_map(s).contains_key(e.0@),
    ensures
        ids_distinct(s.push(e)),
        registry_map(s.push(e)) == registry_map(s).insert(e.0@, e.1),
{
    let t = s.push(e);
    assert forall|a: int, b: int| 0 <= a < b < t.len() implies t[a].0@ != t[b].0@ by {
        if b == s.len() {
            assert(t[a] == s[a]);
        }
    }
    assert forall|id: Seq<char>| #[trigger] registry_map(t).contains_key(id)
        == registry_map(s).insert(e.0@, e.1).contains_key(id) by {
        if registry_map(s).contains_key(id) {
            let k = choose|k: int| 0 <= k < s.len() && s[k].0@ == id;
            assert(t[k].0@ == id);
        }
        if id == e.0@ {
            assert(t[s.len() as int].0@ == id);
        }
    }
    assert forall|id: Seq<char>| #[trigger] registry_map(t).contains_key(id) implies registry_map(t)[id]
        == registry_map(s).insert(e.0@, e.1)[id] by {
        let k = choose|k: int| 0 <= k < t.len() && t[k].0@ == id;
        lemma_map_at(t, k);
        if k < s.len() {
            assert(t[k] == s[k]);
            lemma_map_at(s, k);
        }
    }
    assert(registry_map(t) =~= registry_map(s).insert(e.0@, e.1));
}

impl MetricsRegistry {
    /// No strategy id occurs twice.
    pub closed spec fn wf(&self) -> bool {
        ids_distinct(self.entries@)
    }

    pub fn new() -> (r: Self)
        ensures
            r.wf(),
            r@ == Map::<Seq<char>, StrategyMetrics>::empty(),
    {
        let r = Self { entries: Vec::new() };
        assert(r@ =~= Map::<Seq<char>, StrategyMetrics>::empty());
        r
    }

    /// Position of `strategy_id`, if registered.
    fn find(&self, strategy_id: &String) -> (r: Option<usize>)
        requires
            self.wf(),
        ensures
            match r {
                Some(i) => i < self.entries@.len() && self.entries@[i as int].0@ == strategy_id@,
                None => !self@.contains_key(strategy_id@),
            },
    {
        let mut i: usize = 0;
        while i < self.entries.len()
            invariant
                0 <= i <= self.entries@.len(),
                forall|j: int| 0 <= j < i ==> self.entries@[j].0@ != strategy_id@,
            decreases self.entries@.len() - i,
        {
            if self.entries[i].0 == *strategy_id {
                return Some(i);
            }
            i = i + 1;
        }
        None
    }

    /// Stores `m` as the metrics of `strategy_id`.
    fn update_with(&mut self, strategy_id: &str, m: StrategyMetrics)
        requires
            old(self).wf(),
        ensures
            final(self).wf(),
            final(self)@ == old(self)@.insert(strategy_id@, m),
    {
        let key = strategy_id.to_owned();
        match self.find(&key) {
            Some(i) => {
                proof {
                    lemma_map_update(self.entries@, i as int, (key, m));
                }
                self.entries.set(i, (key, m));
            },
            None => {
                proof {
                    lemma_map_push(self.entries@, (key, m));
                }
                self.entries.push((key, m));
            },
        }
    }

    /// Record an evaluation for the named strategy.
    pub fn record_evaluation(&mut self, strategy_id: &str, duration: Duration, signal_produced: bool, error: bool)
        requires
            old(self).wf(),
            can_record_evaluation(metrics_of(old(self)@, strategy_id@)),
        ensures
            final(self).wf(),
            final(self)@ == old(self)@.insert(
                strategy_id@,
                after_evaluation(metrics_of(old(self)@, strategy_id@), counted_nanos(duration), signal_produced, error),
            ),
    {
        let ns = duration_nanos(&duration) as u64;
        self.record_evaluation_ns(strategy_id, ns, signal_produced, error);
    }

    /// Record an evaluation of the named strategy that took `ns` nanoseconds.
    pub fn record_evaluation_ns(&mut self, strategy_id: &str, ns: u64, signal_produced: bool, error: bool)
        requires
            old(self).wf(),
            can_record_evaluation(metrics_of(old(self)@, strategy_id@)),
        ensures
            final(self).wf(),
            final(self)@ == old(self)@.insert(
                strategy_id@,
                after_evaluation(metrics_of(old(self)@, strategy_id@), ns, signal_produced, error),
            ),
    {
        let mut m = self.current(strategy_id);
        m.record_evaluation_ns(ns, signal_produced, error);
        self.update_with(strategy_id, m);
    }

    /// The metrics of `strategy_id`, zero when it is not registered.
    fn current(&self, strategy_id: &str) -> (r: StrategyMetrics)
        requires
            self.wf(),
        ensures
            r == metrics_of(self@, strategy_id@),
    {
        let key = strategy_id.to_owned();
        match self.find(&key) {
            Some(i) => {
                proof {
                    lemma_map_at(self.entries@, i as int);
                }
                self.entries[i].1
            },
            None => StrategyMetrics::default(),
        }
    }

    /// Record a cache hit or miss for the named strategy.
    pub fn record_cache(&mut self, strategy_id: &str, hit: bool)
        requires
            old(self).wf(),
            hit ==> metrics_of(old(self)@, strategy_id@).cache_hits < u64::MAX,
            !hit ==> metrics_of(old(self)@, strategy_id@).cache_misses < u64::MAX,
        ensures
            final(self).wf(),
            final(self)@ == old(self)@.insert(
                strategy_id@,
                if hit {
                    StrategyMetrics {
                        cache_hits: (metrics_of(old(self)@, strategy_id@).cache_hits + 1) as u64,
                        ..metrics_of(old(self)@, strategy_id@)
                    }
                } else {
                    StrategyMetrics {
                        cache_misses: (metrics_of(old(self)@, strategy_id@).cache_misses + 1) as u64,
                        ..metrics_of(old(self)@, strategy_id@)
                    }
                },
            ),
    {
        let mut m = self.current(strategy_id);
        if hit {
            m.record_cache_hit();
        } else {
            m.record_cache_miss();
        }
        self.update_with(strategy_id, m);
    }

    /// Return a snapshot of metrics for the named strategy.
    pub fn snapshot(&self, strategy_id: &str) -> (r: Option<StrategyMetrics>)
        requires
            self.wf(),
        ensures
            r == if self@.contains_key(strategy_id@) {
                Some(self@[strategy_id@])
            } else {
                None
            },
    {
        let key = strategy_id.to_owned();
        match self.find(&key) {
            Some(i) => {
                proof {
                    lemma_map_at(self.entries@, i as int);
                }
                Some(self.entries[i].1)
            },
            None => None,
        }
    }

    /// Return snapshots for all strategies, keyed by strategy id.
    pub fn all_snapshots(&self) -> (r: StringHashMap<StrategyMetrics>)
        requires
            self.wf(),
        ensures
            r@ == self@,
    {
        let mut out: StringHashMap<StrategyMetrics> = StringHashMap::new();
        let mut i: usize = 0;
        proof {
            assert(self.entries@.take(0) =~= Seq::<(String, StrategyMetrics)>::empty());
            assert(registry_map(self.entries@.take(0)) =~= Map::<Seq<char>, StrategyMetrics>::empty());
        }
        while i < self.entries.len()
            invariant
                0 <= i <= self.entries@.len(),
                ids_distinct(self.entries@),
                out@ == registry_map(self.entries@.take(i as int)),
            decreases self.entries@.len() - i,
        {
            let ghost s = self.entries@;
            proof {
                let t = s.take(i as int);
                assert(ids_distinct(t));
                if registry_map(t).contains_key(s[i as int].0@) {
                    let k = choose|k: int| 0 <= k < t.len() && t[k].0@ == s[i as int].0@;
                    assert(s[k].0@ == s[i as int].0@);
                }
                lemma_map_push(t, s[i as int]);
                assert(t.push(s[i as int]) =~= s.take(i + 1));
            }
            out.insert(self.entries[i].0.clone(), self.entries[i].1);
            i = i + 1;
        }
        proof {
            assert(self.entries@.take(self.entries@.len() as int) =~= self.entries@);
        }
        out
    }
}

} // verus!
