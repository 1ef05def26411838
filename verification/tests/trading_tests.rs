use strategy::errors::PositionError;
use strategy::intent::{aggregation_groups, flush_due};
use strategy::paper::OrderBook;
use strategy::position::{open_decision, OpenAction};
use strategy::portfolio::should_rebalance;
use strategy::sensitivity::perturbation_indices;
use strategy::types::{InstrumentId, Side, Venue};

fn btc() -> InstrumentId {
    InstrumentId::new(Venue::Crypto, "BTC")
}

fn eth() -> InstrumentId {
    InstrumentId::new(Venue::Crypto, "ETH")
}

#[test]
fn flush_waits_for_the_aggregation_window() {
    assert!(!flush_due(1000, 0, 500));
    assert!(flush_due(1000, 0, 1000));
    assert!(flush_due(1000, 1000, 2500));
    assert!(!flush_due(1000, 1000, 1999));
}

#[test]
fn intents_of_one_instrument_and_side_share_a_group() {
    let groups = aggregation_groups(&vec![(btc(), Side::Buy), (btc(), Side::Buy)]);
    assert_eq!(groups, vec![vec![0, 1]]);
}

#[test]
fn different_instruments_and_sides_are_not_merged() {
    let groups = aggregation_groups(&vec![(btc(), Side::Buy), (eth(), Side::Buy)]);
    assert_eq!(groups, vec![vec![0], vec![1]]);
    let groups = aggregation_groups(&vec![(btc(), Side::Buy), (btc(), Side::Sell)]);
    assert_eq!(groups, vec![vec![0], vec![1]]);
    let venue = InstrumentId::new(Venue::UsEquity, "BTC");
    let groups = aggregation_groups(&vec![(btc(), Side::Buy), (venue, Side::Buy)]);
    assert_eq!(groups, vec![vec![0], vec![1]]);
}

#[test]
fn groups_keep_input_order_and_come_by_first_member() {
    let keys = vec![
        (eth(), Side::Sell),
        (btc(), Side::Buy),
        (eth(), Side::Sell),
        (btc(), Side::Sell),
        (btc(), Side::Buy),
    ];
    assert_eq!(aggregation_groups(&keys), vec![vec![0, 2], vec![1, 4], vec![3]]);
    assert!(aggregation_groups(&Vec::new()).is_empty());
}

#[test]
fn rebalance_follows_its_interval() {
    assert!(!should_rebalance(None, None, 1_000_000));
    assert!(!should_rebalance(Some(60_000), None, 59_999));
    assert!(should_rebalance(Some(60_000), None, 60_000));
    assert!(!should_rebalance(Some(60_000), Some(60_000), 100_000));
    assert!(should_rebalance(Some(60_000), Some(60_000), 120_000));
}

#[test]
fn perturbation_samples_spread_from_first_to_last() {
    assert_eq!(perturbation_indices(11, 3), vec![0, 5, 10]);
    assert_eq!(perturbation_indices(11, 4), vec![0, 3, 6, 10]);
    assert_eq!(perturbation_indices(3, 5), vec![0, 1, 2]);
    assert_eq!(perturbation_indices(4, 1), vec![0, 1, 2, 3]);
    assert!(perturbation_indices(0, 3).is_empty());
}

#[test]
fn orders_get_consecutive_ids_and_wait_out_the_delay() {
    let mut book = OrderBook::new();
    assert_eq!(book.next_order_id(), 1);
    let a = book.submit("a", 1_000, 50);
    let b = book.submit("b", 1_010, 50);
    assert_eq!((a, b), (1, 2));
    assert_eq!(book.next_order_id(), 3);
    assert_eq!(book.pending()[0].fill_after_ts_ms, 1_050);

    let none_due = book.take_due(1_049, &vec![true, true]);
    assert!(none_due.is_empty());
    assert_eq!(book.pending().len(), 2);

    let due = book.take_due(1_055, &vec![true, true]);
    assert_eq!(due.len(), 1);
    assert_eq!(due[0].id, 1);
    assert_eq!(due[0].order, "a");
    assert_eq!(book.pending().len(), 1);
    assert_eq!(book.pending()[0].id, 2);
}

#[test]
fn orders_without_market_data_stay_pending() {
    let mut book = OrderBook::new();
    book.submit(10, 0, 0);
    book.submit(20, 0, 0);
    book.submit(30, 0, 0);
    let due = book.take_due(5, &vec![true, false, true]);
    assert_eq!(due.iter().map(|s| s.order).collect::<Vec<_>>(), vec![10, 30]);
    assert_eq!(book.pending().iter().map(|s| s.id).collect::<Vec<_>>(), vec![2]);
}

#[test]
fn cancel_removes_only_the_named_order() {
    let mut book = OrderBook::new();
    book.submit('x', 0, 10);
    book.submit('y', 0, 10);
    assert!(book.cancel(1));
    assert!(!book.cancel(1));
    assert!(!book.cancel(99));
    assert_eq!(book.pending().len(), 1);
    assert_eq!(book.pending()[0].order, 'y');
}

#[test]
fn opening_positions_respects_side_and_capacity() {
    let id = btc();
    assert!(matches!(open_decision(&id, Some(Side::Buy), Side::Buy, 5, 5), Ok(OpenAction::AddToExisting)));
    match open_decision(&id, Some(Side::Buy), Side::Sell, 1, 5) {
        Err(PositionError::OppositePositionExists(i)) => assert_eq!(i, btc()),
        other => panic!("unexpected {:?}", other),
    }
    assert!(matches!(open_decision(&id, None, Side::Sell, 5, 5), Err(PositionError::MaxPositionsReached)));
    assert!(matches!(open_decision(&id, None, Side::Sell, 4, 5), Ok(OpenAction::OpenNew)));
}
