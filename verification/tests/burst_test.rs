//! Multi-broker move clusters and directional breadth.

use tick_compare::contracts::models::{MoveDirection, MoveEvent, MoveQuality};
use tick_compare::contracts::types::{BrokerId, MonoNs};
use tick_compare::metrics::burst::MultiBrokerBurstDetector;

fn make_move_event(broker_id: BrokerId, direction: MoveDirection, rx_mono_ns: MonoNs) -> MoveEvent {
    MoveEvent {
        segment_id: 1,
        broker_id,
        trigger_sequence: 1,
        rx_mono_ns,
        direction,
        anchor_mid_bits: 100.0f64.to_bits(),
        current_mid_bits: if direction == MoveDirection::Up { 100.05f64 } else { 99.95f64 }.to_bits(),
        mid_delta_points_bits: 5.0f64.to_bits(),
        bid_delta_bits: 0.05f64.to_bits(),
        ask_delta_bits: 0.05f64.to_bits(),
        mid_delta_bits: 0.05f64.to_bits(),
        spread_delta_bits: 0.0f64.to_bits(),
        quality: MoveQuality::BothSides,
    }
}

#[test]
fn current_clusters_expire_and_exclude_stale_feeds() {
    let mut detector = MultiBrokerBurstDetector::new(100, 2);
    detector.on_event(make_move_event(1, MoveDirection::Up, MonoNs(1_000_000)), 2, 2);
    detector.on_event(make_move_event(2, MoveDirection::Up, MonoNs(2_000_000)), 2, 2);
    assert!(detector.detect_cluster_at(MoveDirection::Up, 2, 2, MonoNs(3_000_000), &[]).is_some());
    assert!(detector.detect_cluster_at(MoveDirection::Up, 2, 1, MonoNs(3_000_000), &[2]).is_none());
    assert!(detector.detect_cluster_at(MoveDirection::Up, 2, 2, MonoNs(200_000_000), &[]).is_none());
}

#[test]
fn test_multi_broker_cluster_up_burst() {
    let mut detector = MultiBrokerBurstDetector::new(100, 4);

    let t0 = MonoNs(0);
    let t1 = MonoNs(4_000_000);
    let t2 = MonoNs(7_000_000);
    let t3 = MonoNs(10_000_000);

    assert_eq!(detector.on_event(make_move_event(1, MoveDirection::Up, t0), 4, 4), None);
    assert_eq!(detector.on_event(make_move_event(2, MoveDirection::Up, t1), 4, 4), None);
    assert_eq!(detector.on_event(make_move_event(3, MoveDirection::Up, t2), 4, 4), None);

    let cluster = detector.on_event(make_move_event(4, MoveDirection::Up, t3), 4, 4);
    assert!(cluster.is_some());
    let c = cluster.unwrap();

    assert_eq!(c.direction, MoveDirection::Up);
    assert_eq!(c.participating_brokers, vec![1, 2, 3, 4]);
    assert_eq!(c.fresh_count, 4);
    assert_eq!(c.total_brokers, 4);
    assert_eq!(c.first_observed, 1);
    assert_eq!(c.last_observed, 4);
    assert_eq!(c.start_mono, t0);
    assert_eq!(c.end_mono, t3);
    assert!((c.observed_span_ns as f64 / 1_000_000.0 - 10.0).abs() < 1e-6);

    let t_late = MonoNs(120_000_000);
    let late_cluster = detector.on_event(make_move_event(5, MoveDirection::Up, t_late), 5, 5);
    assert_eq!(late_cluster, None);
}

#[test]
fn test_move_breadth_calculation() {
    let mut detector = MultiBrokerBurstDetector::new(100, 2);

    let t0 = MonoNs(1_000_000_000);
    detector.on_event(make_move_event(1, MoveDirection::Up, t0), 4, 4);
    detector.on_event(make_move_event(2, MoveDirection::Up, MonoNs(t0.0 + 5_000_000)), 4, 4);
    detector.on_event(make_move_event(3, MoveDirection::Up, MonoNs(t0.0 + 10_000_000)), 4, 4);
    detector.on_event(make_move_event(4, MoveDirection::Up, MonoNs(t0.0 + 15_000_000)), 4, 4);

    let breadth = detector.compute_breadth(4, 0, MonoNs(t0.0 + 20_000_000));
    assert_eq!(breadth.up_count, 4);
    assert_eq!(breadth.down_count, 0);
    assert_eq!(breadth.stale_count, 0);
    assert_eq!(breadth.total_brokers, 4);
    assert_eq!(breadth.up_ratio_str(), "4/4");

    let breadth_stale = detector.compute_breadth_with_stale_brokers(4, &[4], MonoNs(t0.0 + 20_000_000));
    assert_eq!(breadth_stale.up_count, 3);
    assert_eq!(breadth_stale.down_count, 0);
    assert_eq!(breadth_stale.stale_count, 1);
    assert_eq!(breadth_stale.total_brokers, 4);
    assert_eq!(breadth_stale.up_ratio_str(), "3/4");

    detector.on_event(make_move_event(2, MoveDirection::Down, MonoNs(t0.0 + 30_000_000)), 4, 4);
    let breadth_mixed = detector.compute_breadth(4, 0, MonoNs(t0.0 + 35_000_000));
    assert_eq!(breadth_mixed.up_count, 3);
    assert_eq!(breadth_mixed.down_count, 1);
    assert_eq!(breadth_mixed.total_brokers, 4);
    assert_eq!(breadth_mixed.down_ratio_str(), "1/4");
}

#[test]
fn single_broker_repeats_never_form_a_cluster() {
    let mut detector = MultiBrokerBurstDetector::default();
    assert_eq!(detector.window_ms(), 100);
    for i in 0..5u64 {
        assert_eq!(detector.on_event(make_move_event(7, MoveDirection::Down, MonoNs(i * 1_000_000)), 3, 3), None);
    }
    let other = detector.on_event(make_move_event(8, MoveDirection::Down, MonoNs(6_000_000)), 3, 3).unwrap();
    assert_eq!(other.participating_brokers, vec![7, 8]);
    assert_eq!(other.first_observed, 7);
    assert_eq!(other.observed_span_ns, 6_000_000);
    // An up move does not join a down cluster.
    assert_eq!(detector.on_event(make_move_event(9, MoveDirection::Up, MonoNs(7_000_000)), 3, 3), None);
    detector.prune_older_than(MonoNs(500_000_000));
    assert_eq!(detector.detect_cluster(MoveDirection::Down, 3, 3), None);
    detector.clear();
    assert_eq!(detector.compute_breadth(3, 0, MonoNs(7_000_000)).up_count, 0);
}
