//! Repricing persistence: followed and reverted leads.

use tick_compare::contracts::models::{MoveDirection, MoveEvent, MoveQuality};
use tick_compare::contracts::types::MonoNs;
use tick_compare::metrics::fingerprint::RepricingPersistenceTracker;

fn follow_rate(t: &RepricingPersistenceTracker) -> f64 {
    let base = t.rate_base();
    if base == 0 { 0.0 } else { t.follow_count() as f64 / base as f64 }
}

fn reversion_rate(t: &RepricingPersistenceTracker) -> f64 {
    let base = t.rate_base();
    if base == 0 { 0.0 } else { t.reversion_count() as f64 / base as f64 }
}

#[test]
fn test_repricing_persistence_tracking() {
    let mut tracker = RepricingPersistenceTracker::new(1);
    assert_eq!(follow_rate(&tracker), 0.0);
    assert_eq!(reversion_rate(&tracker), 0.0);

    tracker.record_outcome(true, false);
    tracker.record_outcome(true, false);
    tracker.record_outcome(true, false);
    tracker.record_outcome(false, true);

    assert_eq!(tracker.total_leads(), 4);
    assert_eq!(tracker.follow_count(), 3);
    assert_eq!(tracker.reversion_count(), 1);
    assert_eq!(follow_rate(&tracker), 0.75);
    assert_eq!(reversion_rate(&tracker), 0.25);
}

#[test]
fn test_repricing_persistence_event_flow() {
    let mut tracker = RepricingPersistenceTracker::with_window_ms(1, 200);

    let lead_event = MoveEvent {
        segment_id: 1,
        broker_id: 1,
        trigger_sequence: 10,
        rx_mono_ns: MonoNs(100_000_000),
        direction: MoveDirection::Up,
        anchor_mid_bits: 1.1000f64.to_bits(),
        current_mid_bits: 1.1005f64.to_bits(),
        mid_delta_points_bits: 5.0f64.to_bits(),
        bid_delta_bits: 0.0005f64.to_bits(),
        ask_delta_bits: 0.0005f64.to_bits(),
        mid_delta_bits: 0.0005f64.to_bits(),
        spread_delta_bits: 0.0f64.to_bits(),
        quality: MoveQuality::BothSides,
    };

    tracker.on_lead_event(&lead_event);
    assert_eq!(tracker.total_leads(), 1);
    assert_eq!(tracker.follow_count(), 0);

    let follow_event = MoveEvent { broker_id: 2, rx_mono_ns: MonoNs(150_000_000), direction: MoveDirection::Up, ..lead_event };
    tracker.on_subsequent_event(&follow_event);
    assert_eq!(tracker.follow_count(), 1);
    assert_eq!(tracker.reversion_count(), 0);
    assert_eq!(follow_rate(&tracker), 1.0);

    let lead_event2 = MoveEvent { broker_id: 1, rx_mono_ns: MonoNs(400_000_000), direction: MoveDirection::Down, ..lead_event };
    tracker.on_lead_event(&lead_event2);
    assert_eq!(tracker.total_leads(), 2);

    let revert_event = MoveEvent { broker_id: 1, rx_mono_ns: MonoNs(450_000_000), direction: MoveDirection::Up, ..lead_event };
    tracker.on_subsequent_event(&revert_event);
    assert_eq!(tracker.reversion_count(), 1);
    assert_eq!(follow_rate(&tracker), 0.5);
    assert_eq!(reversion_rate(&tracker), 0.5);
}

#[test]
fn leads_lapse_after_the_window() {
    let mut tracker = RepricingPersistenceTracker::with_window_ms(3, 100);
    let lead = MoveEvent {
        segment_id: 1,
        broker_id: 3,
        trigger_sequence: 1,
        rx_mono_ns: MonoNs(1_000_000_000),
        direction: MoveDirection::Down,
        anchor_mid_bits: 0,
        current_mid_bits: 0,
        mid_delta_points_bits: 0,
        bid_delta_bits: 0,
        ask_delta_bits: 0,
        mid_delta_bits: 0,
        spread_delta_bits: 0,
        quality: MoveQuality::BidOnly,
    };
    // Moves of other brokers do not start a lead.
    tracker.on_lead_event(&MoveEvent { broker_id: 4, ..lead });
    assert_eq!(tracker.total_leads(), 0);
    tracker.on_lead_event(&lead);
    assert!(tracker.pending_lead().is_some());
    tracker.check_expiration(MonoNs(1_050_000_000));
    assert!(tracker.pending_lead().is_some());
    tracker.check_expiration(MonoNs(1_100_000_001));
    assert!(tracker.pending_lead().is_none());
    // A follow after the lapse counts nothing.
    tracker.on_subsequent_event(&MoveEvent { broker_id: 5, rx_mono_ns: MonoNs(1_100_000_002), ..lead });
    assert_eq!(tracker.follow_count(), 0);
    tracker.record_follow();
    tracker.record_reversion();
    assert_eq!(tracker.total_leads(), 2);
    assert_eq!(tracker.rate_base(), 2);
    tracker.record_lead();
    assert_eq!(tracker.total_leads(), 3);
    assert_eq!(tracker.broker_id(), 3);
}
