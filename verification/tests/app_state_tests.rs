use strategy::tui::{
    ActivePanel, AppState, ConfirmationState, ConnectionState, EventFilter, EventKind, KeyAction, KeyInput, StreamEffect,
    StreamNotice,
};

fn two_symbol_overview(app: &mut AppState) {
    app.apply_overview(
        "acc_mvp_paper".to_string(),
        "observe_only".to_string(),
        vec!["AAPL.US".to_string(), "MSFT.US".to_string()],
        Vec::new(),
    );
}

#[test]
fn live_account_submit_requires_two_confirmation_steps() {
    let mut app = AppState::new();
    app.active_account = "acc_lb_live".to_string();
    app.begin_submit("AAPL.US".to_string(), "buy".to_string());
    assert_eq!(app.confirmation_state, ConfirmationState::Review);
    app.confirm_current_action();
    assert_eq!(app.confirmation_state, ConfirmationState::Final);
}

#[test]
fn websocket_disconnect_marks_terminal_degraded() {
    let mut app = AppState::new();
    app.handle_stream_disconnected();
    assert_eq!(app.connection_state, ConnectionState::Reconnecting);
    assert_eq!(app.status_message.as_deref(), Some("stream disconnected; attempting reconnect"));
}

#[test]
fn overview_refresh_selects_first_watch_symbol_when_none_selected() {
    let mut app = AppState::new();
    two_symbol_overview(&mut app);
    assert_eq!(app.selected_symbol.as_deref(), Some("AAPL.US"));
}

#[test]
fn watchlist_navigation_wraps_around() {
    let mut app = AppState::new();
    two_symbol_overview(&mut app);

    app.select_next_symbol();
    assert_eq!(app.selected_symbol.as_deref(), Some("MSFT.US"));

    app.select_next_symbol();
    assert_eq!(app.selected_symbol.as_deref(), Some("AAPL.US"));

    app.select_previous_symbol();
    assert_eq!(app.selected_symbol.as_deref(), Some("MSFT.US"));
}

#[test]
fn panel_cycle_includes_events_panel() {
    let mut app = AppState::new();

    app.select_next_panel();
    assert_eq!(app.active_panel, ActivePanel::Quote);
    app.select_next_panel();
    assert_eq!(app.active_panel, ActivePanel::Orders);
    app.select_next_panel();
    assert_eq!(app.active_panel, ActivePanel::Positions);
    app.select_next_panel();
    assert_eq!(app.active_panel, ActivePanel::Events);
    app.select_next_panel();
    assert_eq!(app.active_panel, ActivePanel::Watchlist);
}

#[test]
fn event_panel_focus_scrolls_events_without_changing_selected_symbol() {
    let mut app = AppState::new();
    two_symbol_overview(&mut app);
    for index in 0..6 {
        app.push_event(format!("order event: item-{index}"));
    }
    app.active_panel = ActivePanel::Events;

    app.scroll_events_down(3);

    assert_eq!(app.selected_symbol.as_deref(), Some("AAPL.US"));
    assert_eq!(app.event_scroll, 1);
}

#[test]
fn websocket_hello_clears_degraded_state_without_refresh() {
    let mut app = AppState::new();
    app.connection_state = ConnectionState::Degraded;

    let effect = app.handle_stream_message(&StreamNotice::Hello);

    assert_eq!(effect, StreamEffect::NoRefresh);
    assert_eq!(app.connection_state, ConnectionState::Connected);
    assert_eq!(app.status_message.as_deref(), Some("stream connected"));
}

#[test]
fn new_terminal_starts_in_connecting_state() {
    let app = AppState::new();
    assert_eq!(app.connection_state, ConnectionState::Connecting);
    assert_eq!(app.connection_label(), "WS CONNECTING");
    assert!(app.recent_events.is_empty());
}

#[test]
fn polling_success_after_disconnect_shows_reconnecting_state() {
    let mut app = AppState::new();
    app.handle_stream_disconnected();

    app.handle_polling_ok();

    assert_eq!(app.connection_state, ConnectionState::Reconnecting);
    assert_eq!(app.connection_label(), "WS RECONNECTING");
}

#[test]
fn polling_failure_marks_terminal_degraded() {
    let mut app = AppState::new();

    app.handle_polling_degraded("quote refresh failed".to_string());

    assert_eq!(app.connection_state, ConnectionState::Degraded);
    assert_eq!(app.connection_label(), "DEGRADED");
}

#[test]
fn quote_refresh_failure_clears_stale_quote_for_selected_symbol() {
    let mut app = AppState::new();
    app.selected_symbol = Some("MSFT.US".to_string());
    app.quote_symbol = Some("AAPL.US".to_string());

    app.handle_quote_refresh_failed("MSFT.US", "quote refresh failed: instrument not found".to_string());

    assert!(app.quote_symbol.is_none());
    assert_eq!(app.status_message.as_deref(), Some("quote refresh failed: instrument not found"));
}

#[test]
fn quote_updated_event_updates_watchlist_and_active_quote_without_refresh() {
    let mut app = AppState::new();
    app.apply_overview(
        "acc_mvp_paper".to_string(),
        "observe_only".to_string(),
        vec!["AAPL.US".to_string()],
        Vec::new(),
    );
    app.apply_quote("AAPL.US".to_string());

    let effect = app.handle_stream_message(&StreamNotice::QuoteUpdated(Some("AAPL.US".to_string())));

    assert_eq!(effect, StreamEffect::NoRefresh);
    assert_eq!(app.quote_symbol.as_deref(), Some("AAPL.US"));
    assert_eq!(
        app.recent_events.first().map(|event| event.message.as_str()),
        Some("quote event: quote_updated")
    );
    assert_eq!(app.recent_events.first().map(|event| event.kind), Some(EventKind::Quote));
}

#[test]
fn order_events_request_refresh() {
    let mut app = AppState::new();

    let effect = app.handle_stream_message(&StreamNotice::OrderCreated(None));

    assert_eq!(effect, StreamEffect::Refresh);
    assert_eq!(app.status_message.as_deref(), Some("order event: order_created"));
}

#[test]
fn order_created_event_inserts_new_order_without_refresh() {
    let mut app = AppState::new();

    let effect = app.handle_stream_message(&StreamNotice::OrderCreated(Some("ord-2".to_string())));

    assert_eq!(effect, StreamEffect::NoRefresh);
    assert_eq!(app.open_order_ids.len(), 1);
    assert_eq!(app.open_order_ids[0], "ord-2");
}

#[test]
fn websocket_error_updates_status_without_refresh() {
    let mut app = AppState::new();

    let effect = app.handle_stream_message(&StreamNotice::Error {
        error_code: "risk_denied".to_string(),
        message: "observe_only".to_string(),
    });

    assert_eq!(effect, StreamEffect::NoRefresh);
    assert_eq!(app.status_message.as_deref(), Some("stream error risk_denied: observe_only"));
    assert_eq!(
        app.recent_events.first().map(|event| event.message.as_str()),
        Some("stream error risk_denied: observe_only")
    );
    assert_eq!(app.recent_events.first().map(|event| event.kind), Some(EventKind::Error));
}

#[test]
fn recent_events_keep_most_recent_entries_only() {
    let mut app = AppState::new();
    for index in 0..8 {
        app.push_event(format!("event-{index}"));
    }

    assert_eq!(app.recent_events.len(), 6);
    assert_eq!(app.recent_events.first().map(|event| event.message.as_str()), Some("event-7"));
    assert_eq!(app.recent_events.last().map(|event| event.message.as_str()), Some("event-2"));
}

#[test]
fn recent_events_assign_expected_kind_labels() {
    let mut app = AppState::new();
    app.push_event("stream connected".to_string());
    app.push_event("quote event: quote_updated".to_string());
    app.push_event("order event: order_created".to_string());
    app.push_event("stream error risk_denied: observe_only".to_string());
    app.push_event("synced | account=acc_mvp_paper symbol=AAPL.US".to_string());

    assert_eq!(app.recent_events[0].kind, EventKind::Sync);
    assert_eq!(app.recent_events[1].kind, EventKind::Error);
    assert_eq!(app.recent_events[2].kind, EventKind::Order);
    assert_eq!(app.recent_events[3].kind, EventKind::Quote);
    assert_eq!(app.recent_events[4].kind, EventKind::Ws);
}

#[test]
fn event_filter_cycles_and_filters_recent_events() {
    let mut app = AppState::new();
    app.push_event("stream connected".to_string());
    app.push_event("quote event: quote_updated".to_string());
    app.push_event("order event: order_created".to_string());
    app.push_event("stream error risk_denied: observe_only".to_string());

    assert_eq!(app.event_filter, EventFilter::All);
    assert_eq!(app.filtered_recent_events().len(), 4);

    app.cycle_event_filter();
    assert_eq!(app.event_filter, EventFilter::Order);
    assert_eq!(app.filtered_recent_events().len(), 1);
    assert_eq!(app.filtered_recent_events()[0].kind, EventKind::Order);

    app.cycle_event_filter();
    assert_eq!(app.event_filter, EventFilter::Quote);
    assert_eq!(app.filtered_recent_events().len(), 1);

    app.cycle_event_filter();
    assert_eq!(app.event_filter, EventFilter::Ws);
    assert_eq!(app.filtered_recent_events().len(), 1);

    app.cycle_event_filter();
    assert_eq!(app.event_filter, EventFilter::Error);
    assert_eq!(app.filtered_recent_events().len(), 1);

    app.cycle_event_filter();
    assert_eq!(app.event_filter, EventFilter::Sync);
    assert!(app.filtered_recent_events().is_empty());

    app.cycle_event_filter();
    assert_eq!(app.event_filter, EventFilter::All);
}

#[test]
fn visible_recent_events_respects_scroll_offset() {
    let mut app = AppState::new();
    for index in 0..6 {
        app.push_event(format!("order event: item-{index}"));
    }

    let top = app.visible_recent_events(3);
    assert_eq!(top.len(), 3);
    assert_eq!(top[0].message, "order event: item-5");
    assert_eq!(top[2].message, "order event: item-3");

    app.scroll_events_down(3);
    let scrolled = app.visible_recent_events(3);
    assert_eq!(scrolled.len(), 3);
    assert_eq!(scrolled[0].message, "order event: item-4");
    assert_eq!(scrolled[2].message, "order event: item-2");

    app.scroll_events_down(3);
    app.scroll_events_down(3);
    let bottom = app.visible_recent_events(3);
    assert_eq!(bottom[0].message, "order event: item-2");
    assert_eq!(bottom[2].message, "order event: item-0");

    app.scroll_events_up(1);
    let up_once = app.visible_recent_events(3);
    assert_eq!(up_once[0].message, "order event: item-3");
}

#[test]
fn cycling_event_filter_resets_event_scroll() {
    let mut app = AppState::new();
    for index in 0..6 {
        app.push_event(format!("quote event: item-{index}"));
    }
    app.scroll_events_down(3);
    assert_eq!(app.event_scroll, 1);

    app.cycle_event_filter();

    assert_eq!(app.event_scroll, 0);
}

fn with_sample_open_order() -> AppState {
    let mut app = AppState::new();
    app.open_order_ids.push("ord-1".to_string());
    app
}

#[test]
fn order_updated_event_mutates_existing_order_without_refresh() {
    let mut app = with_sample_open_order();

    let effect = app.handle_stream_message(&StreamNotice::OrderUpdated(Some("ord-1".to_string())));

    assert_eq!(effect, StreamEffect::NoRefresh);
    assert_eq!(app.open_order_ids, vec!["ord-1".to_string()]);
}

#[test]
fn order_cancelled_event_removes_existing_order_without_refresh() {
    let mut app = with_sample_open_order();

    let effect = app.handle_stream_message(&StreamNotice::OrderCancelled(Some("ord-1".to_string())));

    assert_eq!(effect, StreamEffect::NoRefresh);
    assert!(app.open_order_ids.is_empty());
}

#[test]
fn order_replaced_event_updates_existing_order_without_refresh() {
    let mut app = with_sample_open_order();

    let effect = app.handle_stream_message(&StreamNotice::OrderReplaced(Some("ord-1".to_string())));

    assert_eq!(effect, StreamEffect::NoRefresh);
    assert_eq!(app.open_order_ids.len(), 1);
}

#[test]
fn updating_an_unknown_order_asks_for_refresh() {
    let mut app = with_sample_open_order();

    let effect = app.handle_stream_message(&StreamNotice::OrderUpdated(Some("ord-9".to_string())));

    assert_eq!(effect, StreamEffect::Refresh);
    assert_eq!(app.status_message.as_deref(), Some("order event: order_updated"));
}

#[test]
fn order_created_twice_is_listed_once() {
    let mut app = with_sample_open_order();
    app.handle_stream_message(&StreamNotice::OrderCreated(Some("ord-1".to_string())));
    app.handle_stream_message(&StreamNotice::OrderCreated(Some("ord-3".to_string())));
    assert_eq!(app.open_order_ids, vec!["ord-3".to_string(), "ord-1".to_string()]);
}

#[test]
fn panel_cycle_backwards_returns_to_start() {
    let mut app = AppState::new();
    for _ in 0..5 {
        app.select_previous_panel();
    }
    assert_eq!(app.active_panel, ActivePanel::Watchlist);
    app.select_previous_panel();
    assert_eq!(app.active_panel, ActivePanel::Events);
}

#[test]
fn event_filter_labels_follow_the_cycle() {
    let mut app = AppState::new();
    assert_eq!(app.event_filter_label(), "ALL");
    app.cycle_event_filter();
    assert_eq!(app.event_filter_label(), "ORDER");
}

#[test]
fn scrolling_up_stops_at_the_newest_event() {
    let mut app = AppState::new();
    for index in 0..4 {
        app.push_event(format!("order event: item-{index}"));
    }
    app.scroll_events_up(3);
    assert_eq!(app.event_scroll, 0);
}

#[test]
fn key_table_moves_focus_selection_and_quits() {
    let mut app = AppState::new();
    two_symbol_overview(&mut app);
    let first = app.selected_symbol.clone();
    assert_eq!(app.handle_key(KeyInput::Char('j')), KeyAction::Refresh);
    assert_ne!(app.selected_symbol, first);
    assert_eq!(app.handle_key(KeyInput::Up), KeyAction::Refresh);
    assert_eq!(app.selected_symbol, first);
    assert_eq!(app.handle_key(KeyInput::BackTab), KeyAction::Continue);
    assert_eq!(app.active_panel, ActivePanel::Events);
    assert_eq!(app.handle_key(KeyInput::Char('k')), KeyAction::Continue);
    assert_eq!(app.selected_symbol, first);
    assert_eq!(app.event_scroll, 0);
    assert_eq!(app.handle_key(KeyInput::Char('e')), KeyAction::Continue);
    assert_eq!(app.event_filter, EventFilter::Order);
    assert_eq!(app.handle_key(KeyInput::Tab), KeyAction::Continue);
    assert_eq!(app.active_panel, ActivePanel::Watchlist);
    assert_eq!(app.handle_key(KeyInput::Char('r')), KeyAction::Refresh);
    assert_eq!(app.handle_key(KeyInput::Other), KeyAction::Continue);
    assert!(app.key_fits(KeyInput::Down));
    assert_eq!(app.handle_key(KeyInput::Char('q')), KeyAction::Quit);
}
