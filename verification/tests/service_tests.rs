use strategy::event::{EventBusEvent, EventFilter, SystemEvent};
use strategy::scheduler::{BackpressureHandler, HybridScheduler, SchedulerConfig, SchedulerEvent};
use strategy::stream::QuantdStreamClient;
use strategy::terminal_core::TerminalError;
use strategy::lstm::{normalize_model_error_code, synthetic_bar_times};

#[test]
fn test_backpressure_handler() {
    let mut handler = BackpressureHandler::new(10, 0); // 10 events/sec

    // Should allow first 10
    for i in 0..10 {
        assert!(handler.allow(i), "Should allow event {}", i);
    }

    // Should block 11th
    assert!(!handler.allow(10), "Should block event 10");

    // once the next second begins the counter restarts
    assert!(handler.allow(1100));
}

#[test]
fn disabled_backpressure_handler_blocks_everything() {
    let mut handler = BackpressureHandler::new(5, 0);
    handler.set_active(false);
    assert!(!handler.is_active());
    assert!(!handler.allow(0));
    handler.set_active(true);
    assert!(handler.allow(0));
}

#[test]
fn test_event_filter() {
    let filter = EventFilter {
        event_types: vec!["signal".to_string()],
        instruments: vec!["BTC/USDT".to_string()],
        strategies: vec![],
    };

    let signal = EventBusEvent::Signal {
        strategy_id: "strategy_1".to_string(),
        instrument_id: "BTC/USDT".to_string(),
        side: "buy".to_string(),
        timestamp_ms: 1712345678000,
    };
    assert!(filter.matches(&signal));

    let wrong_signal = EventBusEvent::Signal {
        strategy_id: "strategy_1".to_string(),
        instrument_id: "ETH/USDT".to_string(),
        side: "buy".to_string(),
        timestamp_ms: 1712345678000,
    };
    assert!(!filter.matches(&wrong_signal));
}

#[test]
fn event_filter_edge_cases() {
    let empty = EventFilter::new();
    assert!(empty.matches(&EventBusEvent::System { kind: SystemEvent::Shutdown }));

    let by_instrument = EventFilter {
        event_types: vec![],
        instruments: vec!["BTC/USDT".to_string()],
        strategies: vec![],
    };
    assert!(!by_instrument.matches(&EventBusEvent::Error { source: "feed".into(), error: "down".into() }));

    let system_only = EventFilter {
        event_types: vec!["system.health".to_string()],
        instruments: vec![],
        strategies: vec![],
    };
    assert!(system_only.matches(&EventBusEvent::System { kind: SystemEvent::HealthCheck }));
    assert!(!system_only.matches(&EventBusEvent::System { kind: SystemEvent::Shutdown }));

    let by_strategy = EventFilter {
        event_types: vec![],
        instruments: vec![],
        strategies: vec!["s1".to_string()],
    };
    let update = EventBusEvent::DataUpdate {
        instrument_id: "BTC/USDT".to_string(),
        granularity: "1m".to_string(),
        timestamp_ms: 0,
    };
    assert!(!by_strategy.matches(&update));
}

#[test]
fn scheduler_buffers_and_processes_until_shutdown() {
    let config = SchedulerConfig { max_batch_size: 3, ..SchedulerConfig::default() };
    let mut scheduler = HybridScheduler::new(config);
    assert!(!scheduler.is_active());
    scheduler.start();
    assert!(scheduler.is_active());
    for i in 0..4 {
        scheduler.buffer_event(SchedulerEvent::new_data_update("BTC/USDT".to_string(), i));
    }
    // the oldest event was dropped to keep three pending
    assert_eq!(scheduler.get_pending_count(), 3);
    assert_eq!(scheduler.process_pending_events(), 3);
    assert_eq!(scheduler.get_pending_count(), 0);

    scheduler.buffer_event(SchedulerEvent::new_signal("s".to_string(), "BTC/USDT".to_string(), 9));
    scheduler.buffer_event(SchedulerEvent::Shutdown);
    scheduler.buffer_event(SchedulerEvent::new_data_update("BTC/USDT".to_string(), 10));
    assert_eq!(scheduler.process_pending_events(), 1);
    assert!(!scheduler.is_active());
    assert_eq!(scheduler.get_pending_count(), 1);
}

#[test]
fn scheduler_config_defaults() {
    let config = SchedulerConfig::default();
    assert_eq!(config.default_interval_ms, 1000);
    assert_eq!(config.max_batch_size, 1000);
    assert_eq!(config.event_buffer_size, 10000);
    assert!(config.enable_sequence);
    let mut scheduler = HybridScheduler::new(config);
    scheduler.set_last_tick(42);
    assert_eq!(scheduler.get_last_tick(), 42);
    assert_eq!(scheduler.get_config().max_batch_size, 1000);
}

#[test]
fn stream_client_builds_urls() {
    let c = QuantdStreamClient::new("http://localhost:8080/", None);
    assert_eq!(c.stream_url(), "ws://localhost:8080/v1/stream");
    assert!(c.authorization().is_none());
    let s = QuantdStreamClient::new("https://quantd.example", Some("k1".to_string()));
    assert_eq!(s.stream_url(), "wss://quantd.example/v1/stream");
    assert_eq!(s.authorization().as_deref(), Some("Bearer k1"));
    let plain = QuantdStreamClient::new("ws://x//", None);
    assert_eq!(plain.stream_url(), "ws://x/v1/stream");
}

#[test]
fn terminal_error_keeps_code_and_message() {
    let e = TerminalError::new("risk_denied", "observe only");
    assert_eq!(e.code(), "risk_denied");
    assert_eq!(e.message(), "observe only");
}

#[test]
fn endpoints_compose_api_urls() {
    let e = strategy::endpoints::QuantdEndpoints::new("http://127.0.0.1:9000//");
    assert_eq!(e.base_url(), "http://127.0.0.1:9000");
    assert_eq!(e.submit_order_url(), "http://127.0.0.1:9000/v1/orders");
    assert_eq!(e.cancel_order_url("ord-1"), "http://127.0.0.1:9000/v1/orders/ord-1/cancel");
    assert_eq!(e.amend_order_url("ord-2"), "http://127.0.0.1:9000/v1/orders/ord-2/amend");
    assert_eq!(e.overview_url("acc"), "http://127.0.0.1:9000/v1/terminal/overview?account_id=acc");
    assert_eq!(e.quote_url("AAPL.US"), "http://127.0.0.1:9000/v1/quotes/AAPL.US");
    assert_eq!(e.orders_url("acc_mvp_paper"), "http://127.0.0.1:9000/v1/orders?account_id=acc_mvp_paper");
}

#[test]
fn model_error_codes_keep_the_service_code_or_fall_back() {
    assert_eq!(normalize_model_error_code(Some("model_not_found"), "model_service_error"), "model_not_found");
    assert_eq!(normalize_model_error_code(Some("quota_exceeded"), "model_service_error"), "quota_exceeded");
    assert_eq!(normalize_model_error_code(Some(""), "model_service_error"), "model_service_error");
    assert_eq!(normalize_model_error_code(None, "model_service_error"), "model_service_error");
}

#[test]
fn synthetic_bars_are_daily_and_end_a_day_before_now() {
    assert_eq!(synthetic_bar_times(10 * 86_400_000, 3), vec![7 * 86_400_000, 8 * 86_400_000, 9 * 86_400_000]);
    assert!(synthetic_bar_times(0, 0).is_empty());
    assert!(synthetic_bar_times(0, -2).is_empty());
}
