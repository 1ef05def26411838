//! Event-bus routing: which subscribers an event reaches.
use vstd::prelude::*;

verus! {

/// System-level bus events.
#[derive(Debug, Clone)]
pub enum SystemEvent {
    Shutdown,
    HealthCheck,
    /// A metrics snapshot taken at `timestamp` (its numbers travel with the
    /// sender).
    Metrics { timestamp: i64 },
}

/// An event on the bus as routing sees it: its kind and the ids it names.
/// Signal quantities and metric values are not needed to route and stay with
/// the sender.
#[derive(Debug, Clone)]
pub enum EventBusEvent {
    Signal { strategy_id: String, instrument_id: String, side: String, timestamp_ms: i64 },
    DataUpdate { instrument_id: String, granularity: String, timestamp_ms: i64 },
    Error { source: String, error: String },
    System { kind: SystemEvent },
}

/// Name of an event's type as filters list it.
pub open spec fn event_type_name(e: EventBusEvent) -> Seq<char> {
    match e {
        EventBusEvent::Signal { .. } => "signal"@,
        EventBusEvent::DataUpdate { .. } => "data_update"@,
        EventBusEvent::Error { .. } => "error"@,
        EventBusEvent::System { kind } => match kind {
            SystemEvent::Shutdown => "system.shutdown"@,
            SystemEvent::HealthCheck => "system.health"@,
            SystemEvent::Metrics { .. } => "system.metrics"@,
        },
    }
}

/// The instrument an event is about, if any.
pub open spec fn event_instrument(e: EventBusEvent) -> Option<Seq<char>> {
    match e {
        EventBusEvent::Signal { instrument_id, .. } => Some(instrument_id@),
        EventBusEvent::DataUpdate { instrument_id, .. } => Some(instrument_id@),
        _ => None,
    }
}

/// The strategy an event comes from, if any.
pub open spec fn event_strategy(e: EventBusEvent) -> Option<Seq<char>> {
    match e {
        EventBusEvent::Signal { strategy_id, .. } => Some(strategy_id@),
        _ => None,
    }
}

/// `x` occurs in `list`.
pub open spec fn listed(list: Seq<String>, x: Seq<char>) -> bool {
    exists|i: int| 0 <= i < list.len() && list[i]@ == x
}

/// Event filter for routing; an empty list does not restrict.
#[derive(Debug, Clone)]
pub struct EventFilter {
    /// Filter by event type.
    pub event_types: Vec<String>,
    /// Filter by instrument.
    pub instruments: Vec<String>,
    /// Filter by strategy.
    pub strategies: Vec<String>,
}

/// Whether a filter lets `e` through: every non-empty list must name the
/// event's type, instrument and strategy respectively (an event without an
/// instrument or strategy fails a non-empty list of those).
pub open spec fn filter_accepts(f: EventFilter, e: EventBusEvent) -> bool {
    &&& f.event_types@.len() > 0 ==> listed(f.event_types@, event_type_name(e))
    &&& f.instruments@.len() > 0 ==> (event_instrument(e) matches Some(i) && listed(f.instruments@, i))
    &&& f.strategies@.len() > 0 ==> (event_strategy(e) matches Some(s) && listed(f.strategies@, s))
}

/// Whether `x` occurs in `list`.
fn contains(list: &Vec<String>, x: &String) -> (r: bool)
    ensures
        r == listed(list@, x@),
{
    let mut i: usize = 0;
    while i < list.len()
        invariant
            0 <= i <= list@.len(),
            forall|j: int| 0 <= j < i ==> list@[j]@ != x@,
        decreases list@.len() - i,
    {
        if list[i] == *x {
            return true;
        }
        i = i + 1;
    }
    false
}

impl EventFilter {
    pub fn new() -> (r: Self)
        ensures
            r.event_types@.len() == 0,
            r.instruments@.len() == 0,
            r.strategies@.len() == 0,
    {
        Self { event_types: Vec::new(), instruments: Vec::new(), strategies: Vec::new() }
    }

    pub fn matches(&self, event: &EventBusEvent) -> (r: bool)
        ensures
            r == filter_accepts(*self, *event),
    {
        if self.event_types.len() > 0 {
            let event_type = match event {
                EventBusEvent::Signal { .. } => String::from_str("signal"),
                EventBusEvent::DataUpdate { .. } => String::from_str("data_update"),
                EventBusEvent::Error { .. } => String::from_str("error"),
                EventBusEvent::System { kind } => match kind {
                    SystemEvent::Shutdown => String::from_str("system.shutdown"),
                    SystemEvent::HealthCheck => String::from_str("system.health"),
                    SystemEvent::Metrics { .. } => String::from_str("system.metrics"),
                },
            };
            if !contains(&self.event_types, &event_type) {
                return false;
            }
        }
        if self.instruments.len() > 0 {
            let instrument_id = match event {
                EventBusEvent::Signal { instrument_id, .. } => instrument_id,
                EventBusEvent::DataUpdate { instrument_id, .. } => instrument_id,
                _ => return false,
            };
            if !contains(&self.instruments, instrument_id) {
                return false;
            }
        }
        if self.strategies.len() > 0 {
            let strategy_id = match event {
                EventBusEvent::Signal { strategy_id, .. } => strategy_id,
                _ => return false,
            };
            if !contains(&self.strategies, strategy_id) {
                return false;
            }
        }
        true
    }
}

/// A filter that restricts nothing lets every event through.
pub proof fn lemma_empty_filter_accepts_all(f: EventFilter, e: EventBusEvent)
    requires
        f.event_types@.len() == 0,
        f.instruments@.len() == 0,
        f.strategies@.len() == 0,
    ensures
        filter_accepts(f, e),
{
}

/// A filter that lists instruments rejects every event that names no
/// instrument (errors and system events).
pub proof fn lemma_instrument_filter_narrows(f: EventFilter, e: EventBusEvent)
    requires
        f.instruments@.len() > 0,
        event_instrument(e) is None,
    ensures
        !filter_accepts(f, e),
{
}

} // verus!
