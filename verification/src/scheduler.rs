//! Scheduling decisions: the pending-event buffer with drop-oldest
//! backpressure, its draining, and per-second rate limiting.
use vstd::prelude::*;
use std::collections::VecDeque;

verus! {

/// Event types that can trigger scheduler actions.
#[derive(Debug, Clone)]
pub enum SchedulerEvent {
    /// Timer tick at specified interval.
    TimerTick,
    /// New data arrived (kline or tick).
    DataUpdate { instrument_id: String, timestamp_ms: i64 },
    /// Strategy signal generated.
    Signal { strategy_id: String, instrument_id: String, timestamp_ms: i64 },
    /// Error occurred in data source.
    Error { source: String, error: String },
    /// Shutdown request.
    Shutdown,
    /// Sequence number advance.
    SequenceAdvance { sequence: u64 },
}

impl SchedulerEvent {
    pub fn new_data_update(instrument_id: String, timestamp_ms: i64) -> (r: Self)
        ensures
            r == (SchedulerEvent::DataUpdate { instrument_id, timestamp_ms }),
    {
        Self::DataUpdate { instrument_id, timestamp_ms }
    }

    pub fn new_signal(strategy_id: String, instrument_id: String, timestamp_ms: i64) -> (r: Self)
        ensures
            r == (SchedulerEvent::Signal { strategy_id, instrument_id, timestamp_ms }),
    {
        Self::Signal { strategy_id, instrument_id, timestamp_ms }
    }
}

/// Configuration for the scheduler.
#[derive(Debug, Clone)]
pub struct SchedulerConfig {
    /// Default interval for periodic execution in milliseconds.
    pub default_interval_ms: u64,
    /// Maximum batch size for event processing.
    pub max_batch_size: usize,
    /// Buffer size for event queue.
    pub event_buffer_size: usize,
    /// Enable sequence number tracking.
    pub enable_sequence: bool,
}

impl Default for SchedulerConfig {
    fn default() -> (r: Self)
        ensures
            r.default_interval_ms == 1000,
            r.max_batch_size == 1000,
            r.event_buffer_size == 10000,
            r.enable_sequence,
    {
        Self {
            default_interval_ms: 1000,
            max_batch_size: 1000,
            event_buffer_size: 10000,
            enable_sequence: true,
        }
    }
}

/// The buffer after receiving `e`: appended while under `max` events,
/// otherwise the oldest event is dropped to make room.
pub open spec fn buffered(q: Seq<SchedulerEvent>, max: usize, e: SchedulerEvent) -> Seq<SchedulerEvent> {
    if q.len() < max {
        q.push(e)
    } else if q.len() > 0 {
        q.drop_first().push(e)
    } else {
        q.push(e)
    }
}

/// Index of the first shutdown request in `q`, or `q.len()` when none.
pub open spec fn first_shutdown(q: Seq<SchedulerEvent>) -> int {
    if exists|i: int| 0 <= i < q.len() && q[i] is Shutdown {
        choose|i: int|
            0 <= i < q.len() && q[i] is Shutdown && forall|j: int| 0 <= j < i ==> !(q[j] is Shutdown)
    } else {
        q.len() as int
    }
}

/// The decision state of the hybrid scheduler: its configuration, whether
/// it runs, the last tick it saw and the events waiting for the next tick.
pub struct HybridScheduler {
    pending_events: VecDeque<SchedulerEvent>,
    config: SchedulerConfig,
    last_tick: u64,
    active: bool,
}

impl HybridScheduler {
    /// The events waiting for the next tick, oldest first.
    pub closed spec fn pending(&self) -> Seq<SchedulerEvent> {
        self.pending_events@
    }

    pub closed spec fn running(&self) -> bool {
        self.active
    }

    pub closed spec fn tick(&self) -> u64 {
        self.last_tick
    }

    pub closed spec fn batch_limit(&self) -> usize {
        self.config.max_batch_size
    }

    pub fn new(config: SchedulerConfig) -> (r: Self)
        ensures
            r.pending().len() == 0,
            !r.running(),
            r.tick() == 0,
            r.batch_limit() == config.max_batch_size,
    {
        Self { pending_events: VecDeque::new(), config, last_tick: 0, active: false }
    }

    /// Marks the scheduler as running.
    pub fn start(&mut self)
        ensures
            final(self).running(),
            final(self).pending() == old(self).pending(),
            final(self).batch_limit() == old(self).batch_limit(),
            final(self).tick() == old(self).tick(),
    {
        self.active = true;
    }

    /// Buffers a received event; when `max_batch_size` events are waiting
    /// the oldest one is dropped (backpressure).
    pub fn buffer_event(&mut self, event: SchedulerEvent)
        ensures
            final(self).pending() == buffered(old(self).pending(), old(self).batch_limit(), event),
            final(self).running() == old(self).running(),
            final(self).batch_limit() == old(self).batch_limit(),
            final(self).tick() == old(self).tick(),
    {
        if self.pending_events.len() < self.config.max_batch_size {
            self.pending_events.push_back(event);
        } else {
            let _dropped = self.pending_events.pop_front();
            self.pending_events.push_back(event);
        }
    }

    /// Works through the pending events in arrival order. A shutdown request
    /// stops the scheduler and the events after it stay pending. Returns how
    /// many events were handled before any shutdown.
    pub fn process_pending_events(&mut self) -> (r: usize)
        ensures
            ({
                let q = old(self).pending();
                let k = first_shutdown(q);
                &&& r == k
                &&& if k < q.len() {
                    &&& !final(self).running()
                    &&& final(self).pending() == q.skip(k + 1)
                } else {
                    &&& final(self).running() == old(self).running()
                    &&& final(self).pending().len() == 0
                }
            }),
            final(self).batch_limit() == old(self).batch_limit(),
            final(self).tick() == old(self).tick(),
    {
        let ghost q = self.pending_events@;
        let total = self.pending_events.len();
        let mut processed: usize = 0;
        loop
            invariant_except_break
                q.len() == total,
                self.pending_events@ == q.skip(processed as int),
                processed <= q.len(),
                forall|j: int| 0 <= j < processed ==> !(q[j] is Shutdown),
                self.active == old(self).active,
                self.config == old(self).config,
                self.last_tick == old(self).last_tick,
            ensures
                self.config == old(self).config,
                self.last_tick == old(self).last_tick,
                processed == first_shutdown(q),
                processed <= q.len(),
                first_shutdown(q) < q.len() ==> !self.active && self.pending_events@ == q.skip(
                    processed + 1,
                ),
                first_shutdown(q) == q.len() ==> self.active == old(self).active
                    && self.pending_events@.len() == 0,
            decreases q.len() - processed,
        {
            let next = self.pending_events.pop_front();
            match next {
                None => {
                    proof {
                        assert(q.skip(processed as int).len() == 0);
                        assert(processed == q.len());
                        assert(!exists|i: int| 0 <= i < q.len() && q[i] is Shutdown);
                        assert(first_shutdown(q) == q.len());
                    }
                    break;
                },
                Some(event) => {
                    proof {
                        assert(event == q[processed as int]);
                        assert(q.skip(processed as int).drop_first() =~= q.skip(processed + 1));
                    }
                    match event {
                        SchedulerEvent::Shutdown => {
                            self.active = false;
                            proof {
                                let k = first_shutdown(q);
                                assert(q[processed as int] is Shutdown);
                                if k < processed {
                                    assert(!(q[k] is Shutdown));
                                }
                                if k > processed {
                                    assert(!(q[processed as int] is Shutdown));
                                }
                            }
                            break;
                        },
                        _ => {},
                    }
                    processed = processed + 1;
                },
            }
        }
        processed
    }

    pub fn is_active(&self) -> (r: bool)
        ensures
            r == self.running(),
    {
        self.active
    }

    pub fn get_last_tick(&self) -> (r: u64)
        ensures
            r == self.tick(),
    {
        self.last_tick
    }

    pub fn set_last_tick(&mut self, tick: u64)
        ensures
            final(self).tick() == tick,
            final(self).pending() == old(self).pending(),
            final(self).running() == old(self).running(),
            final(self).batch_limit() == old(self).batch_limit(),
    {
        self.last_tick = tick;
    }

    pub fn get_pending_count(&self) -> (r: usize)
        ensures
            r == self.pending().len(),
    {
        self.pending_events.len()
    }

    pub fn get_config(&self) -> (r: &SchedulerConfig)
        ensures
            r.max_batch_size == self.batch_limit(),
    {
        &self.config
    }
}

/// Buffering never holds more than the batch limit (one event when the limit
/// is zero), and the newest event is always kept.
pub proof fn lemma_buffer_bounded(q: Seq<SchedulerEvent>, max: usize, e: SchedulerEvent)
    requires
        q.len() <= if max >= 1 { max as int } else { 1 },
    ensures
        buffered(q, max, e).len() <= if max >= 1 { max as int } else { 1 },
        buffered(q, max, e).last() == e,
        q.len() < max ==> buffered(q, max, e).drop_last() == q,
        q.len() >= max && q.len() > 0 ==> buffered(q, max, e).drop_last() == q.drop_first(),
{
    assert(q.push(e).drop_last() =~= q);
    if q.len() > 0 {
        assert(q.drop_first().push(e).drop_last() =~= q.drop_first());
    }
}

/// A second has passed since the window began at `start`.
pub open spec fn window_expired(start: u64, now_ms: u64) -> bool {
    now_ms >= start && now_ms - start >= 1000
}

/// Events already allowed in the window that `now_ms` falls in.
pub open spec fn used_in_window(used: u64, start: u64, now_ms: u64) -> int {
    if window_expired(start, now_ms) {
        0
    } else {
        used as int
    }
}

/// Per-second rate limiter: at most `rate_limit` events are allowed in each
/// window, which restarts once a second has passed since it began.
pub struct BackpressureHandler {
    rate_limit: u64,
    window_start_ms: u64,
    count: u64,
    active: bool,
}

impl BackpressureHandler {
    pub closed spec fn limit(&self) -> u64 {
        self.rate_limit
    }

    /// Events allowed in the current window.
    pub closed spec fn used(&self) -> u64 {
        self.count
    }

    /// When the current window began (milliseconds).
    pub closed spec fn window_start(&self) -> u64 {
        self.window_start_ms
    }

    pub closed spec fn enabled(&self) -> bool {
        self.active
    }

    pub fn new(rate_limit: u64, now_ms: u64) -> (r: Self)
        ensures
            r.limit() == rate_limit,
            r.used() == 0,
            r.window_start() == now_ms,
            r.enabled(),
    {
        Self { rate_limit, window_start_ms: now_ms, count: 0, active: true }
    }

    /// Whether an event arriving at `now_ms` may pass.
    pub fn allow(&mut self, now_ms: u64) -> (r: bool)
        ensures
            final(self).limit() == old(self).limit(),
            final(self).enabled() == old(self).enabled(),
            !old(self).enabled() ==> !r && *final(self) == *old(self),
            old(self).enabled() ==> {
                let used = used_in_window(old(self).used(), old(self).window_start(), now_ms);
                &&& final(self).window_start() == if window_expired(old(self).window_start(), now_ms) {
                    now_ms
                } else {
                    old(self).window_start()
                }
                &&& r == (used < old(self).limit())
                &&& final(self).used() == if r { used + 1 } else { used }
            },
    {
        if !self.active {
            return false;
        }
        if now_ms >= self.window_start_ms && now_ms - self.window_start_ms >= 1000 {
            self.count = 0;
            self.window_start_ms = now_ms;
        }
        let capacity = self.rate_limit.saturating_sub(self.count);
        if capacity > 0 {
            self.count = self.count + 1;
            true
        } else {
            false
        }
    }

    pub fn is_active(&self) -> (r: bool)
        ensures
            r == self.enabled(),
    {
        self.active
    }

    pub fn set_active(&mut self, active: bool)
        ensures
            final(self).enabled() == active,
            final(self).limit() == old(self).limit(),
            final(self).used() == old(self).used(),
            final(self).window_start() == old(self).window_start(),
    {
        self.active = active;
    }
}

/// Within one window the limiter never lets more than `rate_limit` events
/// through: the count of allowed events stays at or under the limit.
pub proof fn lemma_rate_limited(used: u64, limit: u64, window_start: u64, now_ms: u64)
    requires
        used <= limit,
    ensures
        ({
            let u = used_in_window(used, window_start, now_ms);
            let allowed = u < limit;
            (if allowed { u + 1 } else { u }) <= limit
        }),
{
}

} // verus!
