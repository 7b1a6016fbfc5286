//! Regression checks of the documented invariants that concern raw data.

use std::sync::Arc;
use tick_compare::contracts::models::{LeadLagMatch, MoveDirection, MoveEvent, MoveQuality};
use tick_compare::contracts::types::{BrokerId, LogRawFrame, MonoNs, Sequence, SequenceDisposition};
use tick_compare::metrics::burst::MultiBrokerBurstDetector;

#[test]
fn test_invariant_i14_raw_observation_preserved_in_logs() {
    let raw_frame = LogRawFrame {
        broker_id: 1,
        connection_generation: 1,
        frame_index: 42,
        rx_mono_ns: MonoNs(100_000_000),
        rx_unix_ns: Some(1_700_000_000_000_000_000),
        config_epoch: 1,
        analysis_segment: 1,
        raw_wire_bytes: Arc::new(vec![0xAA, 0xBB, 0xCC]),
        dispositions: vec![SequenceDisposition::New],
    };

    assert_eq!(raw_frame.broker_id, 1);
    assert_eq!(raw_frame.frame_index, 42);
    assert_eq!(raw_frame.dispositions, vec![SequenceDisposition::New]);
    assert_eq!(*raw_frame.raw_wire_bytes, vec![0xAA, 0xBB, 0xCC]);
}

fn up_move(broker_id: BrokerId, trigger_sequence: Sequence, rx: u64) -> MoveEvent {
    MoveEvent {
        segment_id: 1,
        broker_id,
        trigger_sequence,
        rx_mono_ns: MonoNs(rx),
        direction: MoveDirection::Up,
        anchor_mid_bits: 150.000f64.to_bits(),
        current_mid_bits: 150.005f64.to_bits(),
        mid_delta_points_bits: 5.0f64.to_bits(),
        bid_delta_bits: 0.005f64.to_bits(),
        ask_delta_bits: 0.005f64.to_bits(),
        mid_delta_bits: 0.005f64.to_bits(),
        spread_delta_bits: 0.0f64.to_bits(),
        quality: MoveQuality::BothSides,
    }
}

#[test]
fn test_rfc_section81_test_b_multi_broker_simultaneous_move_high_breadth_not_signal() {
    let mut burst_detector = MultiBrokerBurstDetector::new(100, 2);

    let timestamps_ms = [0u64, 2, 4, 7, 9];
    let mut last_cluster = None;

    for (i, &t_ms) in timestamps_ms.iter().enumerate() {
        let ev = up_move((i + 1) as BrokerId, (i + 1) as Sequence, t_ms * 1_000_000);
        if let Some(c) = burst_detector.on_event(ev, 5, 5) {
            last_cluster = Some(c);
        }
    }

    let cluster = last_cluster.expect("Cluster must be detected for 5 simultaneous broker moves");
    assert_eq!(cluster.direction, MoveDirection::Up);
    assert_eq!(cluster.participating_brokers.len(), 5);
    assert_eq!(cluster.participating_brokers, vec![1, 2, 3, 4, 5]);

    let span_ms = cluster.observed_span_ns as f64 / 1_000_000.0;
    assert!(span_ms <= 10.0, "Observed span must be <= 10ms, was {}ms", span_ms);
    assert_eq!(cluster.first_observed, 1);
    assert_eq!(cluster.last_observed, 5);

    let breadth = burst_detector.compute_breadth(5, 0, MonoNs(9_000_000));
    assert_eq!(breadth.up_count, 5);
    assert_eq!(breadth.down_count, 0);
    assert_eq!(breadth.total_brokers, 5);
    assert_eq!(breadth.up_ratio_str(), "5/5");

    assert_eq!(cluster.direction, MoveDirection::Up);
    assert_eq!(cluster.fresh_count, 5);
}

#[test]
fn test_invariant_i2_observed_lead_lag_is_relative_mono_timing() {
    let ev1 = up_move(1, 10, 10_000_000);
    let ev2 = up_move(2, 20, 13_000_000);

    let lead_lag = LeadLagMatch {
        match_id: 1,
        leader: 1,
        follower: 2,
        leader_event: ev1,
        follower_event: ev2,
        t_leader: MonoNs(10_000_000),
        t_follower: MonoNs(13_000_000),
        signed_delta_ns: 3_000_000,
        abs_delta_ns: 3_000_000,
        segment_id: 1,
    };

    assert_eq!(lead_lag.signed_delta_ns, 3_000_000);
    assert_eq!(lead_lag.signed_delta_ns as f64 / 1_000_000.0, 3.0);
    assert_eq!(lead_lag.leader, 1);
    assert_eq!(lead_lag.follower, 2);
}
