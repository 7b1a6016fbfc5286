//! Broker pair selection and stored UI settings.

use tick_compare::ui::chart::BottomMetric;
use tick_compare::ui::dashboard::PairSelection;
use tick_compare::ui::settings::{reconcile_pair, sanitize_pair, sanitize_timeframe_ms};

#[test]
fn test_set_broker_a_and_b_with_swapping() {
    let mut app = PairSelection::new((1, 2));
    assert_eq!(app.selected_pair(), (1, 2));

    app.set_broker_a(3);
    assert_eq!(app.selected_pair(), (3, 2));

    // Setting A to the current B swaps them.
    app.set_broker_a(2);
    assert_eq!(app.selected_pair(), (2, 3));

    // Setting B to the current A swaps them.
    app.set_broker_b(2);
    assert_eq!(app.selected_pair(), (3, 2));
}

#[test]
fn test_cycle_pair_forward_and_backward() {
    let mut app = PairSelection::new((1, 2));
    let brokers = vec![1, 2, 3];

    app.cycle_pair(&brokers, true);
    assert_eq!(app.selected_pair(), (1, 3));
    app.cycle_pair(&brokers, true);
    assert_eq!(app.selected_pair(), (2, 1));
    app.cycle_pair(&brokers, true);
    assert_eq!(app.selected_pair(), (2, 3));

    app.cycle_pair(&brokers, false);
    assert_eq!(app.selected_pair(), (2, 1));
}

#[test]
fn test_pair_selection_handler_called() {
    // Each change of the selection is reported, once.
    let mut call_count = 0usize;
    let mut app = PairSelection::new((1, 2));

    if app.set_broker_a(3) {
        call_count += 1;
    }
    assert_eq!(call_count, 1);

    if app.set_broker_b(1) {
        call_count += 1;
    }
    assert_eq!(call_count, 2);
}

#[test]
fn unchanged_selections_are_not_reported() {
    let mut app = PairSelection::new((1, 2));
    assert!(!app.set_broker_a(1));
    assert!(!app.set_selected_pair(1, 2));
    assert!(!app.set_selected_pair(4, 4));
    assert!(app.set_selected_pair(4, 5));
    assert!(!app.cycle_pair(&[4], true));
}

#[test]
fn stored_settings_are_sanitized() {
    assert_eq!(sanitize_timeframe_ms(42_000), 60_000);
    assert_eq!(sanitize_timeframe_ms(5_000), 5_000);
    assert_eq!(sanitize_pair((3, 3)), (1, 2));
    assert_eq!(sanitize_pair((3, 4)), (3, 4));
    assert_eq!(reconcile_pair((99, 100), &[1, 2], (1, 2)), (1, 2));
    assert_eq!(reconcile_pair((2, 1), &[1, 2], (1, 2)), (2, 1));
}

#[test]
fn test_bottom_metric_shortcuts_and_cycling() {
    assert_eq!(BottomMetric::MidDiff.next(), BottomMetric::BidAskDiff);
    assert_eq!(BottomMetric::BidAskDiff.next(), BottomMetric::SpreadDiff);
    assert_eq!(BottomMetric::SpreadDiff.next(), BottomMetric::LeadLag);
    assert_eq!(BottomMetric::LeadLag.next(), BottomMetric::MidDispersion);
    assert_eq!(BottomMetric::MidDispersion.next(), BottomMetric::MoveBreadthView);
    assert_eq!(BottomMetric::MoveBreadthView.next(), BottomMetric::QuotePersistence);
    assert_eq!(BottomMetric::QuotePersistence.next(), BottomMetric::MidDiff);

    assert_eq!(BottomMetric::MidDiff.prev(), BottomMetric::QuotePersistence);
    assert_eq!(BottomMetric::QuotePersistence.prev(), BottomMetric::MoveBreadthView);
    assert_eq!(BottomMetric::MoveBreadthView.prev(), BottomMetric::MidDispersion);
    assert_eq!(BottomMetric::MidDispersion.prev(), BottomMetric::LeadLag);
    assert_eq!(BottomMetric::LeadLag.prev(), BottomMetric::SpreadDiff);
    assert_eq!(BottomMetric::SpreadDiff.prev(), BottomMetric::BidAskDiff);
    assert_eq!(BottomMetric::BidAskDiff.prev(), BottomMetric::MidDiff);

    assert_eq!(BottomMetric::from_key_number(1), Some(BottomMetric::MidDiff));
    assert_eq!(BottomMetric::from_key_number(2), Some(BottomMetric::BidAskDiff));
    assert_eq!(BottomMetric::from_key_number(3), Some(BottomMetric::SpreadDiff));
    assert_eq!(BottomMetric::from_key_number(4), Some(BottomMetric::LeadLag));
    assert_eq!(BottomMetric::from_key_number(5), Some(BottomMetric::MidDispersion));
    assert_eq!(BottomMetric::from_key_number(6), Some(BottomMetric::MoveBreadthView));
    assert_eq!(BottomMetric::from_key_number(7), Some(BottomMetric::QuotePersistence));
}
