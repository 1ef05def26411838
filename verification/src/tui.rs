//! The trading terminal's interaction state: panel focus, order
//! confirmation, stream connection health, the recent-event log and
//! watchlist selection.
use vstd::prelude::*;
use crate::text::{has_prefix, starts_with, decimal, decimal_string};

verus! {

#[derive(Debug, Clone, Copy, PartialEq, Eq, Structural)]
pub enum ActivePanel {
    Watchlist,
    Quote,
    Orders,
    Positions,
    Events,
}

#[derive(Debug, Clone, Copy, PartialEq, Eq, Structural)]
pub enum ConfirmationState {
    Inactive,
    Review,
    Final,
}

#[derive(Debug, Clone, Copy, PartialEq, Eq, Structural)]
pub enum StreamEffect {
    NoRefresh,
    Refresh,
}

#[derive(Debug, Clone, Copy, PartialEq, Eq, Structural)]
pub enum ConnectionState {
    Connecting,
    Connected,
    Reconnecting,
    Degraded,
}

#[derive(Debug, Clone, Copy, PartialEq, Eq, Structural)]
pub enum EventKind {
    Ws,
    Order,
    Quote,
    Error,
    Sync,
}

#[derive(Debug, Clone, Copy, PartialEq, Eq, Structural)]
pub enum EventFilter {
    All,
    Order,
    Quote,
    Ws,
    Error,
    Sync,
}

/// One entry of the recent-event log.
#[derive(Debug, Clone, PartialEq, Eq)]
pub struct RecentEvent {
    pub kind: EventKind,
    pub message: String,
}

/// How many recent events the terminal keeps.
pub const MAX_RECENT_EVENTS: usize = 6;

/// A stream message as the terminal acts on it. Order and quote messages
/// carry the order id or symbol of their payload, or `None` when the payload
/// could not be decoded.
#[derive(Debug, Clone, PartialEq, Eq)]
pub enum StreamNotice {
    Hello,
    OrderCreated(Option<String>),
    OrderUpdated(Option<String>),
    OrderCancelled(Option<String>),
    OrderReplaced(Option<String>),
    QuoteUpdated(Option<String>),
    Error { error_code: String, message: String },
}

/// Terminal state. Prices and quantities of rows live with the rendering
/// layer; the state keeps the symbols and order ids its decisions read.
#[derive(Debug, Clone, PartialEq, Eq)]
pub struct AppState {
    pub active_panel: ActivePanel,
    pub active_account: String,
    pub selected_symbol: Option<String>,
    pub selected_watch_index: usize,
    pub confirmation_state: ConfirmationState,
    pub connection_state: ConnectionState,
    pub event_filter: EventFilter,
    pub event_scroll: usize,
    pub status_message: Option<String>,
    pub recent_events: Vec<RecentEvent>,
    pub runtime_mode: String,
    /// Symbols of the watchlist rows, in display order.
    pub watch_symbols: Vec<String>,
    /// Ids of the open orders, newest first.
    pub open_order_ids: Vec<String>,
    /// Symbol of the quote on display, if any.
    pub quote_symbol: Option<String>,
}

/// The kind of a logged message, read from its prefix.
pub open spec fn event_kind_of(m: Seq<char>) -> EventKind {
    if has_prefix(m, "order event:"@) || has_prefix(m, "submit "@) {
        EventKind::Order
    } else if has_prefix(m, "quote event:"@) {
        EventKind::Quote
    } else if has_prefix(m, "stream error "@) {
        EventKind::Error
    } else if has_prefix(m, "stream "@) {
        EventKind::Ws
    } else {
        EventKind::Sync
    }
}

pub fn infer_event_kind(message: &str) -> (r: EventKind)
    ensures
        r == event_kind_of(message@),
        has_prefix(message@, "order event:"@) ==> r == EventKind::Order,
        has_prefix(message@, "submit "@) ==> r == EventKind::Order,
        has_prefix(message@, "quote event:"@) ==> r == EventKind::Quote,
        has_prefix(message@, "stream error "@) ==> r == EventKind::Error,
        has_prefix(message@, "stream "@) && !has_prefix(message@, "stream error "@) ==> r == EventKind::Ws,
{
    proof {
        lemma_event_kinds(message@);
    }
    if starts_with(message, "order event:") || starts_with(message, "submit ") {
        EventKind::Order
    } else if starts_with(message, "quote event:") {
        EventKind::Quote
    } else if starts_with(message, "stream error ") {
        EventKind::Error
    } else if starts_with(message, "stream ") {
        EventKind::Ws
    } else {
        EventKind::Sync
    }
}

/// How a logged message is classified by its prefix: order events and order
/// submissions are orders, quote events are quotes, stream errors are errors,
/// other stream messages are connection events, and anything else is a sync
/// message.
pub proof fn lemma_event_kinds(m: Seq<char>)
    ensures
        has_prefix(m, "order event:"@) ==> event_kind_of(m) == EventKind::Order,
        has_prefix(m, "submit "@) ==> event_kind_of(m) == EventKind::Order,
        has_prefix(m, "quote event:"@) ==> event_kind_of(m) == EventKind::Quote,
        has_prefix(m, "stream error "@) ==> event_kind_of(m) == EventKind::Error,
        has_prefix(m, "stream "@) && !has_prefix(m, "stream error "@) ==> event_kind_of(m) == EventKind::Ws,
        !has_prefix(m, "order event:"@) && !has_prefix(m, "submit "@) && !has_prefix(m, "quote event:"@)
            && !has_prefix(m, "stream "@) ==> event_kind_of(m) == EventKind::Sync,
{
    reveal_strlit("order event:");
    reveal_strlit("submit ");
    reveal_strlit("quote event:");
    reveal_strlit("stream error ");
    reveal_strlit("stream ");
    if has_prefix(m, "quote event:"@) {
        assert(!has_prefix(m, "order event:"@)) by {
            if has_prefix(m, "order event:"@) {
                assert(m.subrange(0, 12)[0] == 'o');
            }
        }
        assert(!has_prefix(m, "submit "@)) by {
            if has_prefix(m, "submit "@) {
                assert(m.subrange(0, 7)[0] == 's');
            }
        }
        assert(m.subrange(0, 12)[0] == 'q');
    }
    if has_prefix(m, "stream "@) {
        assert(m.subrange(0, 7)[0] == 's');
        assert(m.subrange(0, 7)[1] == 't');
        assert(!has_prefix(m, "order event:"@)) by {
            if has_prefix(m, "order event:"@) {
                assert(m.subrange(0, 12)[0] == 'o');
            }
        }
        assert(!has_prefix(m, "submit "@)) by {
            if has_prefix(m, "submit "@) {
                assert(m.subrange(0, 7)[1] == 'u');
            }
        }
        assert(!has_prefix(m, "quote event:"@)) by {
            if has_prefix(m, "quote event:"@) {
                assert(m.subrange(0, 12)[0] == 'q');
            }
        }
    }
    if has_prefix(m, "stream error "@) {
        assert(has_prefix(m, "stream "@)) by {
            assert(m.subrange(0, 7) =~= m.subrange(0, 13).subrange(0, 7));
            assert("stream error "@.subrange(0, 7) =~= "stream "@);
        }
    }
}

/// Label of an event kind in the event panel.
pub open spec fn kind_label(kind: EventKind) -> Seq<char> {
    match kind {
        EventKind::Ws => "WS"@,
        EventKind::Order => "ORDER"@,
        EventKind::Quote => "QUOTE"@,
        EventKind::Error => "ERROR"@,
        EventKind::Sync => "SYNC"@,
    }
}

pub fn event_kind_label(kind: EventKind) -> (r: &'static str)
    ensures
        r@ == kind_label(kind),
{
    proof {
        reveal_strlit("WS");
        reveal_strlit("ORDER");
        reveal_strlit("QUOTE");
        reveal_strlit("ERROR");
        reveal_strlit("SYNC");
    }
    match kind {
        EventKind::Ws => "WS",
        EventKind::Order => "ORDER",
        EventKind::Quote => "QUOTE",
        EventKind::Error => "ERROR",
        EventKind::Sync => "SYNC",
    }
}

/// The event log after logging `(kind, m)`: newest first, at most six.
pub open spec fn logged(events: Seq<RecentEvent>, kind: EventKind, m: Seq<char>) -> Seq<Seq<char>> {
    let all = seq![m] + events.map_values(|e: RecentEvent| e.message@);
    if all.len() > 6 {
        all.take(6)
    } else {
        all
    }
}

/// Messages of an event log, newest first.
pub open spec fn messages(events: Seq<RecentEvent>) -> Seq<Seq<char>> {
    events.map_values(|e: RecentEvent| e.message@)
}

/// Kinds of an event log, newest first.
pub open spec fn kinds(events: Seq<RecentEvent>) -> Seq<EventKind> {
    events.map_values(|e: RecentEvent| e.kind)
}

/// Kinds of an event log after logging an event of `kind`.
pub open spec fn logged_kinds(events: Seq<RecentEvent>, kind: EventKind) -> Seq<EventKind> {
    let all = seq![kind] + kinds(events);
    if all.len() > 6 {
        all.take(6)
    } else {
        all
    }
}

/// The panel after `select_next_panel`.
pub open spec fn next_panel(p: ActivePanel) -> ActivePanel {
    match p {
        ActivePanel::Watchlist => ActivePanel::Quote,
        ActivePanel::Quote => ActivePanel::Orders,
        ActivePanel::Orders => ActivePanel::Positions,
        ActivePanel::Positions => ActivePanel::Events,
        ActivePanel::Events => ActivePanel::Watchlist,
    }
}

/// The panel after `select_previous_panel`.
pub open spec fn previous_panel(p: ActivePanel) -> ActivePanel {
    match p {
        ActivePanel::Watchlist => ActivePanel::Events,
        ActivePanel::Quote => ActivePanel::Watchlist,
        ActivePanel::Orders => ActivePanel::Quote,
        ActivePanel::Positions => ActivePanel::Orders,
        ActivePanel::Events => ActivePanel::Positions,
    }
}

/// The confirmation step after confirming.
pub open spec fn next_confirmation(c: ConfirmationState) -> ConfirmationState {
    match c {
        ConfirmationState::Inactive => ConfirmationState::Inactive,
        ConfirmationState::Review => ConfirmationState::Final,
        ConfirmationState::Final => ConfirmationState::Inactive,
    }
}

/// The filter after `cycle_event_filter`.
pub open spec fn next_filter(f: EventFilter) -> EventFilter {
    match f {
        EventFilter::All => EventFilter::Order,
        EventFilter::Order => EventFilter::Quote,
        EventFilter::Quote => EventFilter::Ws,
        EventFilter::Ws => EventFilter::Error,
        EventFilter::Error => EventFilter::Sync,
        EventFilter::Sync => EventFilter::All,
    }
}

/// Label of an event filter.
pub open spec fn filter_label(f: EventFilter) -> Seq<char> {
    match f {
        EventFilter::All => "ALL"@,
        EventFilter::Order => "ORDER"@,
        EventFilter::Quote => "QUOTE"@,
        EventFilter::Ws => "WS"@,
        EventFilter::Error => "ERROR"@,
        EventFilter::Sync => "SYNC"@,
    }
}

/// Label of a connection state.
pub open spec fn connection_text(c: ConnectionState) -> Seq<char> {
    match c {
        ConnectionState::Connecting => "WS CONNECTING"@,
        ConnectionState::Connected => "WS CONNECTED"@,
        ConnectionState::Reconnecting => "WS RECONNECTING"@,
        ConnectionState::Degraded => "DEGRADED"@,
    }
}

/// Whether the filter shows events of `kind`.
pub open spec fn shows(f: EventFilter, kind: EventKind) -> bool {
    match f {
        EventFilter::All => true,
        EventFilter::Order => kind == EventKind::Order,
        EventFilter::Quote => kind == EventKind::Quote,
        EventFilter::Ws => kind == EventKind::Ws,
        EventFilter::Error => kind == EventKind::Error,
        EventFilter::Sync => kind == EventKind::Sync,
    }
}

/// The events the filter shows, newest first.
pub open spec fn filtered(events: Seq<RecentEvent>, f: EventFilter) -> Seq<RecentEvent> {
    events.filter(|e: RecentEvent| shows(f, e.kind))
}

/// The window of `limit` filtered events starting at the scroll offset,
/// clamped so the window stays full where it can.
pub open spec fn visible(events: Seq<RecentEvent>, f: EventFilter, scroll: usize, limit: usize) -> Seq<RecentEvent> {
    let fl = filtered(events, f);
    if fl.len() == 0 || limit == 0 {
        Seq::empty()
    } else {
        let max_offset = if fl.len() > limit { fl.len() - limit } else { 0 };
        let start = if scroll < max_offset { scroll as int } else { max_offset };
        let rest = fl.skip(start);
        if rest.len() > limit { rest.take(limit as int) } else { rest }
    }
}

/// Position of `symbol` among the watch symbols, or `-1`.
pub open spec fn symbol_index(symbols: Seq<String>, symbol: Seq<char>) -> int {
    if exists|i: int| 0 <= i < symbols.len() && symbols[i]@ == symbol {
        choose|i: int|
            0 <= i < symbols.len() && symbols[i]@ == symbol && forall|j: int|
                0 <= j < i ==> symbols[j]@ != symbol
    } else {
        -1
    }
}

/// The row after row `i` of `n` rows, wrapping to the top.
pub open spec fn next_index(i: int, n: int) -> int {
    (i + 1) % n
}

/// The row before row `i` of `n` rows, wrapping to the bottom.
pub open spec fn previous_index(i: int, n: int) -> int {
    if i == 0 {
        n - 1
    } else {
        i - 1
    }
}

/// The selection invariant: a selected index inside a non-empty watchlist.
pub open spec fn selection_in_range(s: AppState) -> bool {
    s.watch_symbols@.len() > 0 ==> s.selected_watch_index < s.watch_symbols@.len()
}

/// A copy of a log entry.
fn copy_event(e: &RecentEvent) -> (r: RecentEvent)
    ensures
        r == *e,
{
    RecentEvent { kind: e.kind, message: e.message.clone() }
}

/// Finds the first position of `symbol` in `symbols`.
fn position_of(symbols: &Vec<String>, symbol: &String) -> (r: Option<usize>)
    ensures
        match r {
            Some(i) => i == symbol_index(symbols@, symbol@) && i < symbols@.len(),
            None => symbol_index(symbols@, symbol@) == -1,
        },
{
    let mut i: usize = 0;
    while i < symbols.len()
        invariant
            0 <= i <= symbols@.len(),
            forall|j: int| 0 <= j < i ==> symbols@[j]@ != symbol@,
        decreases symbols@.len() - i,
    {
        if symbols[i] == *symbol {
            proof {
                let k = symbol_index(symbols@, symbol@);
                assert(0 <= k < symbols@.len() && symbols@[k]@ == symbol@ && forall|j: int|
                    0 <= j < k ==> symbols@[j]@ != symbol@);
                if k < i {
                    assert(symbols@[k]@ != symbol@);
                }
                if k > i {
                    assert(symbols@[i as int]@ != symbol@);
                }
            }
            return Some(i);
        }
        i = i + 1;
    }
    None
}

impl AppState {
    pub fn new() -> (r: Self)
        ensures
            r.active_panel == ActivePanel::Watchlist,
            r.active_account@ == "acc_mvp_paper"@,
            r.selected_symbol is None,
            r.selected_watch_index == 0,
            r.confirmation_state == ConfirmationState::Inactive,
            r.connection_state == ConnectionState::Connecting,
            r.event_filter == EventFilter::All,
            r.event_scroll == 0,
            r.status_message is None,
            r.recent_events@.len() == 0,
            r.runtime_mode@ == "observe_only"@,
            r.watch_symbols@.len() == 0,
            r.open_order_ids@.len() == 0,
            r.quote_symbol is None,
    {
        Self {
            active_panel: ActivePanel::Watchlist,
            active_account: String::from_str("acc_mvp_paper"),
            selected_symbol: None,
            selected_watch_index: 0,
            confirmation_state: ConfirmationState::Inactive,
            connection_state: ConnectionState::Connecting,
            event_filter: EventFilter::All,
            event_scroll: 0,
            status_message: None,
            recent_events: Vec::new(),
            runtime_mode: String::from_str("observe_only"),
            watch_symbols: Vec::new(),
            open_order_ids: Vec::new(),
            quote_symbol: None,
        }
    }

    /// Logs `message` under `kind`: it becomes the status line and the
    /// newest entry of the log, which keeps the six newest entries.
    pub fn push_typed_event(&mut self, kind: EventKind, message: String)
        ensures
            final(self).status_message matches Some(m) && m@ == message@,
            messages(final(self).recent_events@) == logged(old(self).recent_events@, kind, message@),
            kinds(final(self).recent_events@) == logged_kinds(old(self).recent_events@, kind),
            *final(self) == (AppState {
                status_message: final(self).status_message,
                recent_events: final(self).recent_events,
                ..*old(self)
            }),
    {
        let ghost old_events = self.recent_events@;
        self.status_message = Some(message.clone());
        self.recent_events.insert(0, RecentEvent { kind, message });
        if self.recent_events.len() > MAX_RECENT_EVENTS {
            self.recent_events.truncate(MAX_RECENT_EVENTS);
        }
        proof {
            let all = seq![RecentEvent { kind, message }] + old_events;
            assert(messages(all) =~= seq![message@] + messages(old_events));
            assert(kinds(all) =~= seq![kind] + kinds(old_events));
            if all.len() > 6 {
                assert(messages(self.recent_events@) =~= messages(all).take(6));
                assert(kinds(self.recent_events@) =~= kinds(all).take(6));
            } else {
                assert(self.recent_events@ =~= all);
            }
        }
    }

    /// Logs `message` under the kind its prefix names.
    pub fn push_event(&mut self, message: String)
        ensures
            final(self).status_message matches Some(m) && m@ == message@,
            messages(final(self).recent_events@) == logged(old(self).recent_events@, event_kind_of(message@), message@),
            kinds(final(self).recent_events@) == logged_kinds(old(self).recent_events@, event_kind_of(message@)),
            *final(self) == (AppState {
                status_message: final(self).status_message,
                recent_events: final(self).recent_events,
                ..*old(self)
            }),
    {
        let kind = infer_event_kind(message.as_str());
        self.push_typed_event(kind, message);
    }

    /// Starts an order submission: the live account needs a review step
    /// before the final confirmation.
    pub fn begin_submit(&mut self, symbol: String, side: String)
        ensures
            final(self).selected_symbol == Some(symbol),
            final(self).confirmation_state == if old(self).active_account@ == "acc_lb_live"@ {
                ConfirmationState::Review
            } else {
                ConfirmationState::Final
            },
            messages(final(self).recent_events@) == logged(
                old(self).recent_events@,
                EventKind::Order,
                "submit "@ + side@ + " order pending confirmation"@,
            ),
            kinds(final(self).recent_events@) == logged_kinds(old(self).recent_events@, EventKind::Order),
            kinds(final(self).recent_events@)[0] == EventKind::Order,
            final(self).connection_state == old(self).connection_state,
            final(self).watch_symbols == old(self).watch_symbols,
    {
        proof {
            reveal_strlit("acc_lb_live");
            reveal_strlit("submit ");
        }
        self.selected_symbol = Some(symbol);
        let live = String::from_str("acc_lb_live");
        self.confirmation_state = if self.active_account == live {
            ConfirmationState::Review
        } else {
            ConfirmationState::Final
        };
        let mut message = String::from_str("submit ");
        message.append(side.as_str());
        message.append(" order pending confirmation");
        proof {
            assert(has_prefix(message@, "submit "@)) by {
                assert(message@.subrange(0, 7) =~= "submit "@);
            }
            lemma_event_kinds(message@);
        }
        self.push_event(message);
    }

    pub fn confirm_current_action(&mut self)
        ensures
            *final(self) == (AppState {
                confirmation_state: next_confirmation(old(self).confirmation_state),
                ..*old(self)
            }),
    {
        self.confirmation_state = match self.confirmation_state {
            ConfirmationState::Inactive => ConfirmationState::Inactive,
            ConfirmationState::Review => ConfirmationState::Final,
            ConfirmationState::Final => ConfirmationState::Inactive,
        };
    }

    pub fn handle_stream_disconnected(&mut self)
        ensures
            final(self).connection_state == ConnectionState::Reconnecting,
            final(self).status_message matches Some(m) && m@
                == "stream disconnected; attempting reconnect"@,
            messages(final(self).recent_events@) == logged(
                old(self).recent_events@,
                EventKind::Ws,
                "stream disconnected; attempting reconnect"@,
            ),
    {
        self.connection_state = ConnectionState::Reconnecting;
        let message = String::from_str("stream disconnected; attempting reconnect");
        proof {
            reveal_strlit("stream disconnected; attempting reconnect");
            reveal_strlit("order event:");
            reveal_strlit("submit ");
            reveal_strlit("quote event:");
            reveal_strlit("stream error ");
            reveal_strlit("stream ");
            assert(message@.subrange(0, 7) =~= "stream "@);
            assert(message@.subrange(0, 12) != "order event:"@) by {
                assert(message@[0] != "order event:"@[0]);
            }
            assert(message@.subrange(0, 7) != "submit "@) by {
                assert(message@[1] != "submit "@[1]);
            }
            assert(message@.subrange(0, 12) != "quote event:"@) by {
                assert(message@[0] != "quote event:"@[0]);
            }
            assert(message@.subrange(0, 13) != "stream error "@) by {
                assert(message@[7] != "stream error "@[7]);
            }
        }
        self.push_event(message);
    }

    pub fn handle_polling_ok(&mut self)
        ensures
            *final(self) == (AppState {
                connection_state: if old(self).connection_state != ConnectionState::Connected {
                    ConnectionState::Reconnecting
                } else {
                    ConnectionState::Connected
                },
                ..*old(self)
            }),
    {
        if self.connection_state != ConnectionState::Connected {
            self.connection_state = ConnectionState::Reconnecting;
        }
    }

    pub fn handle_polling_degraded(&mut self, message: String)
        ensures
            final(self).connection_state == ConnectionState::Degraded,
            final(self).status_message matches Some(m) && m@ == message@,
            messages(final(self).recent_events@) == logged(old(self).recent_events@, event_kind_of(message@), message@),
            final(self).quote_symbol == old(self).quote_symbol,
            final(self).selected_symbol == old(self).selected_symbol,
    {
        self.connection_state = ConnectionState::Degraded;
        self.push_event(message);
    }

    /// A failed quote refresh for the selected symbol drops its stale quote;
    /// either way the terminal is degraded.
    pub fn handle_quote_refresh_failed(&mut self, symbol: &str, message: String)
        ensures
            final(self).quote_symbol == if old(self).selected_symbol matches Some(s) && s@ == symbol@ {
                None
            } else {
                old(self).quote_symbol
            },
            final(self).connection_state == ConnectionState::Degraded,
            final(self).status_message matches Some(m) && m@ == message@,
            messages(final(self).recent_events@) == logged(old(self).recent_events@, event_kind_of(message@), message@),
    {
        let target = symbol.to_owned();
        let matches = match &self.selected_symbol {
            Some(s) => *s == target,
            None => false,
        };
        if matches {
            self.quote_symbol = None;
        }
        self.handle_polling_degraded(message);
    }

    /// Loads an account overview: watchlist symbols and open orders. The
    /// selection stays on its symbol when the new watchlist still has it and
    /// otherwise moves to the first row.
    pub fn apply_overview(&mut self, account_id: String, runtime_mode: String, watch_symbols: Vec<String>, open_order_ids: Vec<String>)
        ensures
            final(self).active_account == account_id,
            final(self).runtime_mode == runtime_mode,
            final(self).watch_symbols == watch_symbols,
            final(self).open_order_ids == open_order_ids,
            watch_symbols@.len() == 0 ==> final(self).selected_watch_index == 0
                && final(self).selected_symbol is None && final(self).quote_symbol is None,
            watch_symbols@.len() > 0 ==> {
                let k = match old(self).selected_symbol {
                    Some(s) => symbol_index(watch_symbols@, s@),
                    None => -1,
                };
                &&& final(self).selected_watch_index == if k >= 0 { k } else { 0 }
                &&& final(self).selected_symbol == Some(watch_symbols@[final(self).selected_watch_index as int])
                &&& final(self).quote_symbol == old(self).quote_symbol
            },
            selection_in_range(*final(self)),
            final(self).recent_events == old(self).recent_events,
            final(self).connection_state == old(self).connection_state,
    {
        self.active_account = account_id;
        self.runtime_mode = runtime_mode;
        self.watch_symbols = watch_symbols;
        self.open_order_ids = open_order_ids;
        if self.watch_symbols.len() == 0 {
            self.selected_watch_index = 0;
            self.selected_symbol = None;
            self.quote_symbol = None;
            return;
        }
        let found = match &self.selected_symbol {
            Some(s) => position_of(&self.watch_symbols, s),
            None => None,
        };
        let index = match found {
            Some(i) => i,
            None => 0,
        };
        self.selected_watch_index = index;
        self.selected_symbol = Some(self.watch_symbols[index].clone());
    }

    /// Shows the quote of `symbol`, selecting it (and its watchlist row when
    /// it has one).
    pub fn apply_quote(&mut self, symbol: String)
        ensures
            final(self).selected_symbol == Some(symbol),
            final(self).quote_symbol == Some(symbol),
            final(self).selected_watch_index == if symbol_index(old(self).watch_symbols@, symbol@) >= 0 {
                symbol_index(old(self).watch_symbols@, symbol@) as usize
            } else {
                old(self).selected_watch_index
            },
            final(self).watch_symbols == old(self).watch_symbols,
            selection_in_range(*old(self)) ==> selection_in_range(*final(self)),
    {
        match position_of(&self.watch_symbols, &symbol) {
            Some(i) => {
                self.selected_watch_index = i;
            },
            None => {},
        }
        self.selected_symbol = Some(symbol.clone());
        self.quote_symbol = Some(symbol);
    }

    pub fn select_next_panel(&mut self)
        ensures
            *final(self) == (AppState { active_panel: next_panel(old(self).active_panel), ..*old(self) }),
    {
        self.active_panel = match self.active_panel {
            ActivePanel::Watchlist => ActivePanel::Quote,
            ActivePanel::Quote => ActivePanel::Orders,
            ActivePanel::Orders => ActivePanel::Positions,
            ActivePanel::Positions => ActivePanel::Events,
            ActivePanel::Events => ActivePanel::Watchlist,
        };
    }

    pub fn select_previous_panel(&mut self)
        ensures
            *final(self) == (AppState { active_panel: previous_panel(old(self).active_panel), ..*old(self) }),
    {
        self.active_panel = match self.active_panel {
            ActivePanel::Watchlist => ActivePanel::Events,
            ActivePanel::Quote => ActivePanel::Watchlist,
            ActivePanel::Orders => ActivePanel::Quote,
            ActivePanel::Positions => ActivePanel::Orders,
            ActivePanel::Events => ActivePanel::Positions,
        };
    }

    /// Moves the selection one row down, wrapping to the top.
    pub fn select_next_symbol(&mut self)
        requires
            old(self).watch_symbols@.len() > 0 ==> old(self).selected_watch_index < usize::MAX,
        ensures
            old(self).watch_symbols@.len() == 0 ==> *final(self) == *old(self),
            old(self).watch_symbols@.len() > 0 ==> {
                let i = next_index(old(self).selected_watch_index as int, old(self).watch_symbols@.len() as int) as usize;
                &&& *final(self) == (AppState {
                    selected_watch_index: i,
                    selected_symbol: Some(old(self).watch_symbols@[i as int]),
                    ..*old(self)
                })
            },
    {
        if self.watch_symbols.len() == 0 {
            return;
        }
        self.selected_watch_index = (self.selected_watch_index + 1) % self.watch_symbols.len();
        self.selected_symbol = Some(self.watch_symbols[self.selected_watch_index].clone());
    }

    /// Moves the selection one row up, wrapping to the bottom; a selection
    /// that points past the list selects no symbol.
    pub fn select_previous_symbol(&mut self)
        ensures
            old(self).watch_symbols@.len() == 0 ==> *final(self) == *old(self),
            old(self).watch_symbols@.len() > 0 ==> {
                let i = previous_index(old(self).selected_watch_index as int, old(self).watch_symbols@.len() as int) as usize;
                &&& *final(self) == (AppState {
                    selected_watch_index: i,
                    selected_symbol: if i < old(self).watch_symbols@.len() {
                        Some(old(self).watch_symbols@[i as int])
                    } else {
                        None
                    },
                    ..*old(self)
                })
            },
    {
        if self.watch_symbols.len() == 0 {
            return;
        }
        self.selected_watch_index = if self.selected_watch_index == 0 {
            self.watch_symbols.len() - 1
        } else {
            self.selected_watch_index - 1
        };
        self.selected_symbol = if self.selected_watch_index < self.watch_symbols.len() {
            Some(self.watch_symbols[self.selected_watch_index].clone())
        } else {
            None
        };
    }

    pub fn connection_label(&self) -> (r: &'static str)
        ensures
            r@ == connection_text(self.connection_state),
    {
        proof {
            reveal_strlit("WS CONNECTING");
            reveal_strlit("WS CONNECTED");
            reveal_strlit("WS RECONNECTING");
            reveal_strlit("DEGRADED");
        }
        match self.connection_state {
            ConnectionState::Connecting => "WS CONNECTING",
            ConnectionState::Connected => "WS CONNECTED",
            ConnectionState::Reconnecting => "WS RECONNECTING",
            ConnectionState::Degraded => "DEGRADED",
        }
    }

    pub fn event_filter_label(&self) -> (r: &'static str)
        ensures
            r@ == filter_label(self.event_filter),
    {
        proof {
            reveal_strlit("ALL");
            reveal_strlit("ORDER");
            reveal_strlit("QUOTE");
            reveal_strlit("WS");
            reveal_strlit("ERROR");
            reveal_strlit("SYNC");
        }
        match self.event_filter {
            EventFilter::All => "ALL",
            EventFilter::Order => "ORDER",
            EventFilter::Quote => "QUOTE",
            EventFilter::Ws => "WS",
            EventFilter::Error => "ERROR",
            EventFilter::Sync => "SYNC",
        }
    }

    /// Shows the next kind of events, from the top of the list.
    pub fn cycle_event_filter(&mut self)
        ensures
            final(self).event_filter == next_filter(old(self).event_filter),
            final(self).event_scroll == 0,
            final(self).status_message matches Some(m) && m@ == "event filter: "@ + filter_label(
                next_filter(old(self).event_filter),
            ),
            final(self).recent_events == old(self).recent_events,
    {
        self.event_filter = match self.event_filter {
            EventFilter::All => EventFilter::Order,
            EventFilter::Order => EventFilter::Quote,
            EventFilter::Quote => EventFilter::Ws,
            EventFilter::Ws => EventFilter::Error,
            EventFilter::Error => EventFilter::Sync,
            EventFilter::Sync => EventFilter::All,
        };
        self.event_scroll = 0;
        let mut message = String::from_str("event filter: ");
        message.append(self.event_filter_label());
        proof {
            reveal_strlit("event filter: ");
        }
        self.status_message = Some(message);
    }

    /// The events the current filter shows, newest first.
    pub fn filtered_recent_events(&self) -> (r: Vec<RecentEvent>)
        ensures
            r@ == filtered(self.recent_events@, self.event_filter),
    {
        let ghost pred = |e: RecentEvent| shows(self.event_filter, e.kind);
        let mut out: Vec<RecentEvent> = Vec::new();
        let mut i: usize = 0;
        while i < self.recent_events.len()
            invariant
                0 <= i <= self.recent_events@.len(),
                pred == (|e: RecentEvent| shows(self.event_filter, e.kind)),
                out@ == self.recent_events@.take(i as int).filter(pred),
            decreases self.recent_events@.len() - i,
        {
            let keep = match self.event_filter {
                EventFilter::All => true,
                EventFilter::Order => self.recent_events[i].kind == EventKind::Order,
                EventFilter::Quote => self.recent_events[i].kind == EventKind::Quote,
                EventFilter::Ws => self.recent_events[i].kind == EventKind::Ws,
                EventFilter::Error => self.recent_events[i].kind == EventKind::Error,
                EventFilter::Sync => self.recent_events[i].kind == EventKind::Sync,
            };
            if keep {
                out.push(copy_event(&self.recent_events[i]));
            }
            proof {
                let t = self.recent_events@.take(i as int + 1);
                assert(t.drop_last() =~= self.recent_events@.take(i as int));
                reveal(Seq::filter);
                assert(out@ =~= t.filter(pred));
            }
            i = i + 1;
        }
        proof {
            assert(self.recent_events@.take(self.recent_events@.len() as int) =~= self.recent_events@);
        }
        out
    }

    /// The `limit` filtered events shown from the scroll offset.
    pub fn visible_recent_events(&self, limit: usize) -> (r: Vec<RecentEvent>)
        ensures
            r@ == visible(self.recent_events@, self.event_filter, self.event_scroll, limit),
    {
        let filtered = self.filtered_recent_events();
        if filtered.len() == 0 || limit == 0 {
            return Vec::new();
        }
        let max_offset = filtered.len().saturating_sub(limit);
        let start = if self.event_scroll < max_offset {
            self.event_scroll
        } else {
            max_offset
        };
        let mut out: Vec<RecentEvent> = Vec::new();
        let mut i = start;
        while i < filtered.len() && i - start < limit
            invariant
                start <= i <= filtered@.len(),
                out@ =~= filtered@.subrange(start as int, i as int),
                i - start <= limit,
            decreases filtered@.len() - i,
        {
            out.push(copy_event(&filtered[i]));
            i = i + 1;
        }
        proof {
            let rest = filtered@.skip(start as int);
            if rest.len() > limit {
                assert(out@ =~= rest.take(limit as int));
            } else {
                assert(out@ =~= rest);
            }
        }
        out
    }

    /// Scrolls the event list down one entry, stopping when the last window
    /// is in view.
    pub fn scroll_events_down(&mut self, window_size: usize)
        requires
            filtered(old(self).recent_events@, old(self).event_filter).len() > window_size && window_size != 0
                ==> old(self).event_scroll < usize::MAX,
        ensures
            ({
                let n = filtered(old(self).recent_events@, old(self).event_filter).len();
                if n <= window_size || window_size == 0 {
                    final(self).event_scroll == 0 && final(self).status_message == old(self).status_message
                } else {
                    &&& final(self).event_scroll == if old(self).event_scroll + 1 < n - window_size {
                        old(self).event_scroll + 1
                    } else {
                        n - window_size
                    }
                    &&& final(self).status_message matches Some(m) && m@ == "event scroll: "@
                        + decimal(final(self).event_scroll as nat + 1)
                }
            }),
            final(self).recent_events == old(self).recent_events,
            final(self).selected_symbol == old(self).selected_symbol,
            final(self).event_filter == old(self).event_filter,
    {
        let filtered_len = self.filtered_recent_events().len();
        if filtered_len <= window_size || window_size == 0 {
            self.event_scroll = 0;
            return;
        }
        let max_offset = filtered_len - window_size;
        let next = self.event_scroll + 1;
        self.event_scroll = if next < max_offset {
            next
        } else {
            max_offset
        };
        self.set_scroll_status();
    }

    /// Scrolls the event list up one entry, stopping at the top.
    pub fn scroll_events_up(&mut self, _window_size: usize)
        ensures
            final(self).event_scroll == if old(self).event_scroll > 0 {
                old(self).event_scroll - 1
            } else {
                0
            },
            final(self).status_message matches Some(m) && m@ == "event scroll: "@ + decimal(
                final(self).event_scroll as nat + 1,
            ),
            final(self).recent_events == old(self).recent_events,
            final(self).selected_symbol == old(self).selected_symbol,
    {
        self.event_scroll = if self.event_scroll > 0 {
            self.event_scroll - 1
        } else {
            0
        };
        self.set_scroll_status();
    }

    /// Status line naming the (one-based) scroll position.
    fn set_scroll_status(&mut self)
        requires
            old(self).event_scroll < usize::MAX,
        ensures
            final(self).status_message matches Some(m) && m@ == "event scroll: "@ + decimal(
                old(self).event_scroll as nat + 1,
            ),
            *final(self) == (AppState { status_message: final(self).status_message, ..*old(self) }),
    {
        let mut message = String::from_str("event scroll: ");
        let position = decimal_string(self.event_scroll + 1);
        message.append(position.as_str());
        proof {
            reveal_strlit("event scroll: ");
        }
        self.status_message = Some(message);
    }

    /// Whether `id` is an open order.
    fn has_order(&self, id: &String) -> (r: bool)
        ensures
            r == exists|i: int| 0 <= i < self.open_order_ids@.len() && self.open_order_ids@[i]@ == id@,
    {
        let mut i: usize = 0;
        while i < self.open_order_ids.len()
            invariant
                0 <= i <= self.open_order_ids@.len(),
                forall|j: int| 0 <= j < i ==> self.open_order_ids@[j]@ != id@,
            decreases self.open_order_ids@.len() - i,
        {
            if self.open_order_ids[i] == *id {
                return true;
            }
            i = i + 1;
        }
        false
    }

    /// Drops every open order with id `id`.
    fn remove_order(&mut self, id: &String)
        ensures
            final(self).open_order_ids@ == old(self).open_order_ids@.filter(|x: String| x@ != id@),
            *final(self) == (AppState { open_order_ids: final(self).open_order_ids, ..*old(self) }),
    {
        let ghost pred = |x: String| x@ != id@;
        let ghost ids = self.open_order_ids@;
        let mut kept: Vec<String> = Vec::new();
        let mut i: usize = 0;
        while i < self.open_order_ids.len()
            invariant
                ids == self.open_order_ids@,
                0 <= i <= ids.len(),
                pred == (|x: String| x@ != id@),
                kept@ == ids.take(i as int).filter(pred),
            decreases ids.len() - i,
        {
            if self.open_order_ids[i] != *id {
                kept.push(self.open_order_ids[i].clone());
            }
            proof {
                let t = ids.take(i as int + 1);
                assert(t.drop_last() =~= ids.take(i as int));
                reveal(Seq::filter);
                assert(kept@ =~= t.filter(pred));
            }
            i = i + 1;
        }
        proof {
            assert(ids.take(ids.len() as int) =~= ids);
        }
        self.open_order_ids = kept;
    }

    /// Applies a stream message. Order and quote messages whose payload was
    /// decoded and applied need no refresh; others ask for one.
    pub fn handle_stream_message(&mut self, message: &StreamNotice) -> (r: StreamEffect)
        ensures
            ({
                let ids = old(self).open_order_ids@;
                let known = |id: String| exists|i: int| 0 <= i < ids.len() && ids[i]@ == id@;
                match *message {
                    StreamNotice::Hello => {
                        &&& r == StreamEffect::NoRefresh
                        &&& final(self).connection_state == ConnectionState::Connected
                        &&& messages(final(self).recent_events@) == logged(old(self).recent_events@, event_kind_of("stream connected"@), "stream connected"@)
                        &&& final(self).status_message matches Some(m) && m@ == "stream connected"@
                        &&& final(self).open_order_ids == old(self).open_order_ids
                        &&& final(self).quote_symbol == old(self).quote_symbol
                    },
                    StreamNotice::OrderCreated(p) => {
                        &&& messages(final(self).recent_events@) == logged(old(self).recent_events@, event_kind_of("order event: order_created"@), "order event: order_created"@)
                        &&& final(self).status_message matches Some(m) && m@ == "order event: order_created"@
                        &&& final(self).connection_state == old(self).connection_state
                        &&& final(self).quote_symbol == old(self).quote_symbol
                        &&& match p {
                            Some(id) => r == StreamEffect::NoRefresh && final(self).open_order_ids@ == if known(id) {
                                ids
                            } else {
                                seq![id].add(ids)
                            },
                            None => r == StreamEffect::Refresh && final(self).open_order_ids@ == ids,
                        }
                    },
                    StreamNotice::OrderUpdated(p) => {
                        &&& messages(final(self).recent_events@) == logged(old(self).recent_events@, event_kind_of("order event: order_updated"@), "order event: order_updated"@)
                        &&& final(self).status_message matches Some(m) && m@ == "order event: order_updated"@
                        &&& final(self).connection_state == old(self).connection_state
                        &&& final(self).open_order_ids == old(self).open_order_ids
                        &&& final(self).quote_symbol == old(self).quote_symbol
                        &&& final(self).open_order_ids@ == ids
                        &&& r == if p matches Some(id) && known(id) { StreamEffect::NoRefresh } else { StreamEffect::Refresh }
                    },
                    StreamNotice::OrderCancelled(p) => {
                        &&& messages(final(self).recent_events@) == logged(old(self).recent_events@, event_kind_of("order event: order_cancelled"@), "order event: order_cancelled"@)
                        &&& final(self).status_message matches Some(m) && m@ == "order event: order_cancelled"@
                        &&& final(self).connection_state == old(self).connection_state
                        &&& final(self).quote_symbol == old(self).quote_symbol
                        &&& match p {
                            Some(id) => final(self).open_order_ids@ == ids.filter(|x: String| x@ != id@) && r == if known(id) {
                                StreamEffect::NoRefresh
                            } else {
                                StreamEffect::Refresh
                            },
                            None => r == StreamEffect::Refresh && final(self).open_order_ids@ == ids,
                        }
                    },
                    StreamNotice::OrderReplaced(p) => {
                        &&& messages(final(self).recent_events@) == logged(old(self).recent_events@, event_kind_of("order event: order_replaced"@), "order event: order_replaced"@)
                        &&& final(self).status_message matches Some(m) && m@ == "order event: order_replaced"@
                        &&& final(self).connection_state == old(self).connection_state
                        &&& final(self).open_order_ids == old(self).open_order_ids
                        &&& final(self).quote_symbol == old(self).quote_symbol
                        &&& final(self).open_order_ids@ == ids
                        &&& r == if p matches Some(id) && known(id) { StreamEffect::NoRefresh } else { StreamEffect::Refresh }
                    },
                    StreamNotice::QuoteUpdated(p) => {
                        &&& messages(final(self).recent_events@) == logged(old(self).recent_events@, event_kind_of("quote event: quote_updated"@), "quote event: quote_updated"@)
                        &&& final(self).status_message matches Some(m) && m@ == "quote event: quote_updated"@
                        &&& final(self).connection_state == old(self).connection_state
                        &&& final(self).open_order_ids == old(self).open_order_ids
                        &&& match p {
                            Some(sym) => r == StreamEffect::NoRefresh && final(self).quote_symbol == if old(self).selected_symbol matches Some(sel) && sel@ == sym@ {
                                Some(sym)
                            } else {
                                old(self).quote_symbol
                            },
                            None => r == StreamEffect::Refresh && final(self).quote_symbol == old(self).quote_symbol,
                        }
                    },
                    StreamNotice::Error { error_code, message: text } => {
                        &&& r == StreamEffect::NoRefresh
                        &&& messages(final(self).recent_events@) == logged(old(self).recent_events@, event_kind_of("stream error "@ + error_code@ + ": "@ + text@), "stream error "@ + error_code@ + ": "@ + text@)
                        &&& final(self).status_message matches Some(m) && m@ == "stream error "@ + error_code@ + ": "@ + text@
                        &&& final(self).connection_state == old(self).connection_state
                        &&& final(self).open_order_ids == old(self).open_order_ids
                        &&& final(self).quote_symbol == old(self).quote_symbol
                    },
                }
            }),
            *final(self) == (AppState {
                status_message: final(self).status_message,
                recent_events: final(self).recent_events,
                connection_state: final(self).connection_state,
                open_order_ids: final(self).open_order_ids,
                quote_symbol: final(self).quote_symbol,
                ..*old(self)
            }),
    {
        match message {
            StreamNotice::Hello => {
                self.connection_state = ConnectionState::Connected;
                self.push_event(String::from_str("stream connected"));
                StreamEffect::NoRefresh
            },
            StreamNotice::OrderCreated(p) => {
                let applied = match p {
                    Some(id) => {
                        if !self.has_order(id) {
                            self.open_order_ids.insert(0, id.clone());
                        }
                        true
                    },
                    None => false,
                };
                self.push_event(String::from_str("order event: order_created"));
                if applied {
                    StreamEffect::NoRefresh
                } else {
                    StreamEffect::Refresh
                }
            },
            StreamNotice::OrderUpdated(p) => {
                let applied = match p {
                    Some(id) => self.has_order(id),
                    None => false,
                };
                self.push_event(String::from_str("order event: order_updated"));
                if applied {
                    StreamEffect::NoRefresh
                } else {
                    StreamEffect::Refresh
                }
            },
            StreamNotice::OrderCancelled(p) => {
                let applied = match p {
                    Some(id) => {
                        let present = self.has_order(id);
                        self.remove_order(id);
                        present
                    },
                    None => false,
                };
                self.push_event(String::from_str("order event: order_cancelled"));
                if applied {
                    StreamEffect::NoRefresh
                } else {
                    StreamEffect::Refresh
                }
            },
            StreamNotice::OrderReplaced(p) => {
                let applied = match p {
                    Some(id) => self.has_order(id),
                    None => false,
                };
                self.push_event(String::from_str("order event: order_replaced"));
                if applied {
                    StreamEffect::NoRefresh
                } else {
                    StreamEffect::Refresh
                }
            },
            StreamNotice::QuoteUpdated(p) => {
                let applied = match p {
                    Some(sym) => {
                        let selected = match &self.selected_symbol {
                            Some(sel) => *sel == *sym,
                            None => false,
                        };
                        if selected {
                            self.quote_symbol = Some(sym.clone());
                        }
                        true
                    },
                    None => false,
                };
                self.push_event(String::from_str("quote event: quote_updated"));
                if applied {
                    StreamEffect::NoRefresh
                } else {
                    StreamEffect::Refresh
                }
            },
            StreamNotice::Error { error_code, message: text } => {
                let mut line = String::from_str("stream error ");
                line.append(error_code.as_str());
                line.append(": ");
                line.append(text.as_str());
                proof {
                    reveal_strlit("stream error ");
                    reveal_strlit(": ");
                }
                self.push_event(line);
                StreamEffect::NoRefresh
            },
        }
    }
}


/// Input actions of the terminal.
#[derive(Debug, Clone, PartialEq, Eq)]
pub enum Action {
    Focus(ActivePanel),
    StreamDisconnected,
}

/// Applies an input action to the terminal state.
pub fn apply(app: &mut AppState, action: Action)
    ensures
        match action {
            Action::Focus(panel) => *final(app) == (AppState { active_panel: panel, ..*old(app) }),
            Action::StreamDisconnected => {
                &&& final(app).connection_state == ConnectionState::Reconnecting
                &&& messages(final(app).recent_events@) == logged(
                    old(app).recent_events@,
                    EventKind::Ws,
                    "stream disconnected; attempting reconnect"@,
                )
            },
        },
{
    match action {
        Action::Focus(panel) => app.active_panel = panel,
        Action::StreamDisconnected => app.handle_stream_disconnected(),
    }
}

/// Moving to the next panel and back returns to where it started, and five
/// steps forward visit every panel and come back.
pub proof fn lemma_panel_cycle(p: ActivePanel)
    ensures
        previous_panel(next_panel(p)) == p,
        next_panel(previous_panel(p)) == p,
        next_panel(next_panel(next_panel(next_panel(next_panel(p))))) == p,
{
}

/// An order submission on the live account needs two confirmations (review,
/// then final) before it is done; elsewhere one. Confirming with nothing
/// pending changes nothing.
pub proof fn lemma_confirmation_steps()
    ensures
        next_confirmation(ConfirmationState::Review) == ConfirmationState::Final,
        next_confirmation(next_confirmation(ConfirmationState::Review)) == ConfirmationState::Inactive,
        next_confirmation(ConfirmationState::Final) == ConfirmationState::Inactive,
        next_confirmation(ConfirmationState::Inactive) == ConfirmationState::Inactive,
{
}

/// Six filter changes show every kind of event and return to the start.
pub proof fn lemma_filter_cycle(f: EventFilter)
    ensures
        next_filter(next_filter(next_filter(next_filter(next_filter(next_filter(f)))))) == f,
{
}

/// The event log keeps at most six entries, newest first: the logged
/// message comes first and the older entries follow in order.
pub proof fn lemma_log_newest_first(events: Seq<RecentEvent>, kind: EventKind, m: Seq<char>)
    ensures
        logged(events, kind, m).len() <= 6,
        logged(events, kind, m).len() == if events.len() + 1 > 6 { 6 } else { events.len() + 1 },
        logged(events, kind, m)[0] == m,
        forall|i: int| 0 <= i < logged(events, kind, m).len() - 1 ==> logged(events, kind, m)[i + 1]
            == messages(events)[i],
{
}

/// Watchlist navigation wraps around: moving down then up (or up then down)
/// returns to the same row, and every move stays on a row.
pub proof fn lemma_selection_wraps(i: int, n: int)
    requires
        0 <= i < n,
    ensures
        0 <= next_index(i, n) < n,
        0 <= previous_index(i, n) < n,
        previous_index(next_index(i, n), n) == i,
        next_index(previous_index(i, n), n) == i,
{
    assert(0 <= (i + 1) % n < n) by (nonlinear_arith)
        requires
            n > 0,
    ;
    if i + 1 < n {
        assert((i + 1) % n == i + 1) by (nonlinear_arith)
            requires
                0 <= i + 1 < n,
        ;
    } else {
        assert((i + 1) % n == 0) by (nonlinear_arith)
            requires
                i + 1 == n,
                n > 0,
        ;
    }
    if i > 0 {
        assert(i % n == i) by (nonlinear_arith)
            requires
                0 <= i < n,
        ;
    } else {
        assert(n % n == 0) by (nonlinear_arith)
            requires
                n > 0,
        ;
    }
}

/// The visible window holds at most `limit` events, all of them shown by
/// the filter.
pub proof fn lemma_visible_window(events: Seq<RecentEvent>, f: EventFilter, scroll: usize, limit: usize)
    ensures
        visible(events, f, scroll, limit).len() <= limit,
        forall|i: int| 0 <= i < visible(events, f, scroll, limit).len() ==> shows(
            f,
            #[trigger] visible(events, f, scroll, limit)[i].kind,
        ),
{
    let fl = filtered(events, f);
    let pred = |e: RecentEvent| shows(f, e.kind);
    assert forall|i: int| 0 <= i < fl.len() implies shows(f, #[trigger] fl[i].kind) by {
        events.lemma_filter_pred(pred, i);
    }
}

/// A key press, as the terminal's key table reads it.
#[derive(Debug, Clone, Copy)]
pub enum KeyInput {
    Char(char),
    Tab,
    BackTab,
    Up,
    Down,
    Left,
    Right,
    PageUp,
    PageDown,
    Other,
}

/// What the terminal loop does after a key press.
#[derive(Debug, Clone, Copy, PartialEq, Eq, Structural)]
pub enum KeyAction {
    /// Leave the terminal.
    Quit,
    /// Fetch the account and quote again.
    Refresh,
    /// Keep going.
    Continue,
}

/// What a key press does to the terminal state.
pub enum KeyCommand {
    Quit,
    NextPanel,
    PreviousPanel,
    ScrollUp,
    ScrollDown,
    PreviousSymbol,
    NextSymbol,
    Refresh,
    CycleFilter,
    Nothing,
}

/// The key table: `q` quits; tab and back-tab move the panel focus; up,
/// left and `k` scroll the event list up on the events panel and otherwise
/// select the previous symbol; down, right and `j` do the opposite; `r`
/// refreshes; `e` cycles the event filter; page keys scroll the events.
pub open spec fn key_command(key: KeyInput, panel: ActivePanel) -> KeyCommand {
    match key {
        KeyInput::Char(c) => if c == 'q' {
            KeyCommand::Quit
        } else if c == 'k' {
            if panel == ActivePanel::Events { KeyCommand::ScrollUp } else { KeyCommand::PreviousSymbol }
        } else if c == 'j' {
            if panel == ActivePanel::Events { KeyCommand::ScrollDown } else { KeyCommand::NextSymbol }
        } else if c == 'r' {
            KeyCommand::Refresh
        } else if c == 'e' {
            KeyCommand::CycleFilter
        } else {
            KeyCommand::Nothing
        },
        KeyInput::Tab => KeyCommand::NextPanel,
        KeyInput::BackTab => KeyCommand::PreviousPanel,
        KeyInput::Up | KeyInput::Left => if panel == ActivePanel::Events {
            KeyCommand::ScrollUp
        } else {
            KeyCommand::PreviousSymbol
        },
        KeyInput::Down | KeyInput::Right => if panel == ActivePanel::Events {
            KeyCommand::ScrollDown
        } else {
            KeyCommand::NextSymbol
        },
        KeyInput::PageDown => KeyCommand::ScrollDown,
        KeyInput::PageUp => KeyCommand::ScrollUp,
        KeyInput::Other => KeyCommand::Nothing,
    }
}

/// Quitting quits; choosing a symbol or asking for it refreshes; everything
/// else carries on.
pub open spec fn command_action(c: KeyCommand) -> KeyAction {
    match c {
        KeyCommand::Quit => KeyAction::Quit,
        KeyCommand::PreviousSymbol | KeyCommand::NextSymbol | KeyCommand::Refresh => KeyAction::Refresh,
        _ => KeyAction::Continue,
    }
}

/// A key command can be carried out without overflowing a position.
pub open spec fn command_fits(c: KeyCommand, s: AppState) -> bool {
    match c {
        KeyCommand::NextSymbol => s.watch_symbols@.len() > 0 ==> s.selected_watch_index < usize::MAX,
        KeyCommand::ScrollDown => filtered(s.recent_events@, s.event_filter).len() > 1 ==> s.event_scroll < usize::MAX,
        _ => true,
    }
}

/// The state `n` after command `c` on state `o`.
pub open spec fn command_effect(c: KeyCommand, o: AppState, n: AppState) -> bool {
    match c {
        KeyCommand::NextPanel => n == (AppState { active_panel: next_panel(o.active_panel), ..o }),
        KeyCommand::PreviousPanel => n == (AppState { active_panel: previous_panel(o.active_panel), ..o }),
        KeyCommand::NextSymbol => {
            &&& o.watch_symbols@.len() == 0 ==> n == o
            &&& o.watch_symbols@.len() > 0 ==> {
                let i = next_index(o.selected_watch_index as int, o.watch_symbols@.len() as int) as usize;
                n == (AppState { selected_watch_index: i, selected_symbol: Some(o.watch_symbols@[i as int]), ..o })
            }
        },
        KeyCommand::PreviousSymbol => {
            &&& o.watch_symbols@.len() == 0 ==> n == o
            &&& o.watch_symbols@.len() > 0 ==> {
                let i = previous_index(o.selected_watch_index as int, o.watch_symbols@.len() as int) as usize;
                n == (AppState {
                    selected_watch_index: i,
                    selected_symbol: if i < o.watch_symbols@.len() {
                        Some(o.watch_symbols@[i as int])
                    } else {
                        None
                    },
                    ..o
                })
            }
        },
        KeyCommand::ScrollUp => {
            &&& n.event_scroll == if o.event_scroll > 0 { o.event_scroll - 1 } else { 0 }
            &&& n.status_message matches Some(m) && m@ == "event scroll: "@ + decimal(n.event_scroll as nat + 1)
            &&& n.recent_events == o.recent_events
            &&& n.selected_symbol == o.selected_symbol
        },
        KeyCommand::ScrollDown => {
            let len = filtered(o.recent_events@, o.event_filter).len();
            &&& if len <= 1 {
                n.event_scroll == 0 && n.status_message == o.status_message
            } else {
                &&& n.event_scroll == if o.event_scroll + 1 < len - 1 { o.event_scroll + 1 } else { len - 1 }
                &&& n.status_message matches Some(m) && m@ == "event scroll: "@ + decimal(n.event_scroll as nat + 1)
            }
            &&& n.recent_events == o.recent_events
            &&& n.selected_symbol == o.selected_symbol
            &&& n.event_filter == o.event_filter
        },
        KeyCommand::CycleFilter => {
            &&& n.event_filter == next_filter(o.event_filter)
            &&& n.event_scroll == 0
            &&& n.status_message matches Some(m) && m@ == "event filter: "@ + filter_label(next_filter(o.event_filter))
            &&& n.recent_events == o.recent_events
        },
        KeyCommand::Quit | KeyCommand::Refresh | KeyCommand::Nothing => n == o,
    }
}

/// Page down then page up on the event list returns to where it was, when
/// the list has room below: page down moves one entry down and page up one
/// entry back up, whichever panel has the focus.
pub proof fn lemma_page_down_then_up(s0: AppState, s1: AppState, s2: AppState)
    requires
        command_effect(key_command(KeyInput::PageDown, s0.active_panel), s0, s1),
        command_effect(key_command(KeyInput::PageUp, s1.active_panel), s1, s2),
        s0.event_scroll + 2 < filtered(s0.recent_events@, s0.event_filter).len(),
    ensures
        s1.event_scroll == s0.event_scroll + 1,
        s2.event_scroll == s0.event_scroll,
        s2.recent_events == s0.recent_events,
{
}

/// Tab then back-tab gives the focus back to the panel that had it, and
/// changes nothing else.
pub proof fn lemma_tab_then_back_tab(s0: AppState, s1: AppState, s2: AppState)
    requires
        command_effect(key_command(KeyInput::Tab, s0.active_panel), s0, s1),
        command_effect(key_command(KeyInput::BackTab, s1.active_panel), s1, s2),
    ensures
        s2 == s0,
{
}

/// Outside the event panel, `j` then `k` selects the watchlist row that was
/// selected before, and neither key moves the event list.
pub proof fn lemma_down_then_up_selects_same_row(s0: AppState, s1: AppState, s2: AppState)
    requires
        s0.active_panel != ActivePanel::Events,
        s0.selected_watch_index < s0.watch_symbols@.len(),
        s0.watch_symbols@.len() <= usize::MAX,
        command_effect(key_command(KeyInput::Char('j'), s0.active_panel), s0, s1),
        command_effect(key_command(KeyInput::Char('k'), s1.active_panel), s1, s2),
    ensures
        s2.selected_watch_index == s0.selected_watch_index,
        s2.event_scroll == s0.event_scroll,
        s1.selected_watch_index != s0.selected_watch_index || s0.watch_symbols@.len() == 1,
{
    let n = s0.watch_symbols@.len() as int;
    let i = s0.selected_watch_index as int;
    assert(key_command(KeyInput::Char('j'), s0.active_panel) == KeyCommand::NextSymbol);
    assert(s1.active_panel == s0.active_panel);
    assert(key_command(KeyInput::Char('k'), s1.active_panel) == KeyCommand::PreviousSymbol);
    if i + 1 < n {
        vstd::arithmetic::div_mod::lemma_small_mod((i + 1) as nat, n as nat);
        assert(next_index(i, n) == i + 1);
    } else {
        vstd::arithmetic::div_mod::lemma_mod_self_0(n);
        assert(next_index(i, n) == 0);
    }
    assert(s1.selected_watch_index as int == next_index(i, n));
    assert(s1.watch_symbols == s0.watch_symbols);
    assert(s2.selected_watch_index as int == previous_index(next_index(i, n), n));
}

impl AppState {
    /// Whether the key press can be carried out: moving down past the
    /// largest selection or scroll position overflows.
    pub fn key_fits(&self, key: KeyInput) -> (r: bool)
        ensures
            r == command_fits(key_command(key, self.active_panel), *self),
    {
        let on_events = self.active_panel == ActivePanel::Events;
        let down = match key {
            KeyInput::Down | KeyInput::Right | KeyInput::Char('j') => true,
            _ => false,
        };
        let page_down = match key {
            KeyInput::PageDown => true,
            _ => false,
        };
        if (down && on_events) || page_down {
            !(self.filtered_recent_events().len() > 1 && self.event_scroll == usize::MAX)
        } else if down {
            !(self.watch_symbols.len() > 0 && self.selected_watch_index == usize::MAX)
        } else {
            true
        }
    }

    /// Carries out a key press on the terminal state and tells the loop what
    /// to do next.
    pub fn handle_key(&mut self, key: KeyInput) -> (r: KeyAction)
        requires
            command_fits(key_command(key, old(self).active_panel), *old(self)),
        ensures
            r == command_action(key_command(key, old(self).active_panel)),
            command_effect(key_command(key, old(self).active_panel), *old(self), *final(self)),
            key == KeyInput::PageDown ==> {
                let len = filtered(old(self).recent_events@, old(self).event_filter).len();
                &&& r == KeyAction::Continue
                &&& final(self).event_scroll == if len <= 1 {
                    0
                } else if old(self).event_scroll + 1 < len - 1 {
                    old(self).event_scroll + 1
                } else {
                    len - 1
                }
                &&& final(self).recent_events == old(self).recent_events
                &&& final(self).selected_symbol == old(self).selected_symbol
            },
            key == KeyInput::PageUp ==> {
                &&& r == KeyAction::Continue
                &&& final(self).event_scroll == if old(self).event_scroll > 0 { old(self).event_scroll - 1 } else { 0 }
                &&& final(self).recent_events == old(self).recent_events
                &&& final(self).selected_symbol == old(self).selected_symbol
            },
            key == KeyInput::Char('q') ==> r == KeyAction::Quit && *final(self) == *old(self),
            key == KeyInput::Char('r') ==> r == KeyAction::Refresh && *final(self) == *old(self),
            key == KeyInput::Tab ==> r == KeyAction::Continue
                && final(self).active_panel == next_panel(old(self).active_panel),
            key == KeyInput::BackTab ==> r == KeyAction::Continue
                && final(self).active_panel == previous_panel(old(self).active_panel),
            key == KeyInput::Char('e') ==> r == KeyAction::Continue
                && final(self).event_filter == next_filter(old(self).event_filter) && final(self).event_scroll == 0,
            (key == KeyInput::Up || key == KeyInput::Left || key == KeyInput::Char('k'))
                && old(self).active_panel != ActivePanel::Events ==> r == KeyAction::Refresh
                && final(self).event_scroll == old(self).event_scroll
                && (old(self).watch_symbols@.len() > 0 ==> final(self).selected_watch_index == previous_index(
                    old(self).selected_watch_index as int,
                    old(self).watch_symbols@.len() as int,
                ) as usize),
            (key == KeyInput::Down || key == KeyInput::Right || key == KeyInput::Char('j'))
                && old(self).active_panel != ActivePanel::Events ==> r == KeyAction::Refresh
                && final(self).event_scroll == old(self).event_scroll
                && (old(self).watch_symbols@.len() > 0 ==> final(self).selected_watch_index == next_index(
                    old(self).selected_watch_index as int,
                    old(self).watch_symbols@.len() as int,
                ) as usize),
            (key == KeyInput::Up || key == KeyInput::Left || key == KeyInput::Char('k'))
                && old(self).active_panel == ActivePanel::Events ==> r == KeyAction::Continue
                && final(self).event_scroll == (if old(self).event_scroll > 0 { old(self).event_scroll - 1 } else { 0 })
                && final(self).selected_symbol == old(self).selected_symbol,
            (key == KeyInput::Down || key == KeyInput::Right || key == KeyInput::Char('j'))
                && old(self).active_panel == ActivePanel::Events ==> r == KeyAction::Continue
                && final(self).event_scroll == ({
                    let len = filtered(old(self).recent_events@, old(self).event_filter).len();
                    if len <= 1 {
                        0
                    } else if old(self).event_scroll + 1 < len - 1 {
                        old(self).event_scroll + 1
                    } else {
                        len - 1
                    }
                })
                && final(self).selected_symbol == old(self).selected_symbol,
    {
        let on_events = self.active_panel == ActivePanel::Events;
        match key {
            KeyInput::Char('q') => KeyAction::Quit,
            KeyInput::Tab => {
                self.select_next_panel();
                KeyAction::Continue
            },
            KeyInput::BackTab => {
                self.select_previous_panel();
                KeyAction::Continue
            },
            KeyInput::Up | KeyInput::Left | KeyInput::Char('k') => {
                if on_events {
                    self.scroll_events_up(1);
                    KeyAction::Continue
                } else {
                    self.select_previous_symbol();
                    KeyAction::Refresh
                }
            },
            KeyInput::Down | KeyInput::Right | KeyInput::Char('j') => {
                if on_events {
                    self.scroll_events_down(1);
                    KeyAction::Continue
                } else {
                    self.select_next_symbol();
                    KeyAction::Refresh
                }
            },
            KeyInput::Char('r') => KeyAction::Refresh,
            KeyInput::Char('e') => {
                self.cycle_event_filter();
                KeyAction::Continue
            },
            KeyInput::PageDown => {
                self.scroll_events_down(1);
                KeyAction::Continue
            },
            KeyInput::PageUp => {
                self.scroll_events_up(1);
                KeyAction::Continue
            },
            _ => KeyAction::Continue,
        }
    }
}

} // verus!
