//! One-to-one matching of the moves of two brokers.

use tick_compare::contracts::models::{MoveDirection, MoveEvent, MoveQuality};
use tick_compare::contracts::types::{BrokerId, MonoNs, Sequence};
use tick_compare::tick::matcher::OneToOneEventMatcher;

fn ev(broker_id: BrokerId, trigger_sequence: Sequence, rx: u64, direction: MoveDirection, anchor: f64, current: f64, delta: f64) -> MoveEvent {
    MoveEvent {
        segment_id: 1,
        broker_id,
        trigger_sequence,
        rx_mono_ns: MonoNs(rx),
        direction,
        anchor_mid_bits: anchor.to_bits(),
        current_mid_bits: current.to_bits(),
        mid_delta_points_bits: 3.0f64.to_bits(),
        bid_delta_bits: delta.to_bits(),
        ask_delta_bits: delta.to_bits(),
        mid_delta_bits: delta.to_bits(),
        spread_delta_bits: 0.0f64.to_bits(),
        quality: MoveQuality::BothSides,
    }
}

#[test]
fn test_tl03_tl04_one_to_one_matcher() {
    let mut matcher = OneToOneEventMatcher::new(1, 2, 100, 100, 1);

    // Case 1: A at 0 ms, A at 8 ms, B at 10 ms: B pairs with A at 8 ms.
    let ev_a0 = ev(1, 1, 0, MoveDirection::Up, 150.0, 150.003, 0.003);
    let ev_a8 = ev(1, 2, 8_000_000, MoveDirection::Up, 150.003, 150.006, 0.003);
    let ev_b10 = ev(2, 10, 10_000_000, MoveDirection::Up, 150.0, 150.003, 0.003);

    assert!(matcher.on_event(ev_a0).is_none());
    assert!(matcher.on_event(ev_a8).is_none());
    let m = matcher.on_event(ev_b10).expect("Must match ev_a8 with ev_b10");

    assert_eq!(m.leader, 1, "Broker 1 leads");
    assert_eq!(m.follower, 2, "Broker 2 follows");
    assert_eq!(m.signed_delta_ns, 2_000_000);
    assert_eq!(m.signed_delta_ns as f64 / 1_000_000.0, 2.0);

    // Case 2: no reuse; B at 11 ms pairs with the remaining A at 0 ms.
    let ev_b11 = ev(2, 11, 11_000_000, MoveDirection::Up, 150.003, 150.006, 0.003);
    let m2 = matcher.on_event(ev_b11).expect("Matches remaining ev_a0");
    assert_eq!(m2.leader_event.trigger_sequence, 1, "Matched ev_a0");

    // Case 3: a delta of 0 is not a match.
    let ev_a50 = ev(1, 3, 50_000_000, MoveDirection::Down, 150.0, 149.997, -0.003);
    let ev_b50 = ev(2, 12, 50_000_000, MoveDirection::Down, 150.0, 149.997, -0.003);
    matcher.on_event(ev_a50);
    assert!(matcher.on_event(ev_b50).is_none(), "Delta 0 must not match");
}

#[test]
fn follower_first_ties_and_window() {
    let mut matcher = OneToOneEventMatcher::new(1, 2, 10, 2, 1);
    // B moves first: B leads, the signed delta is negative.
    assert!(matcher.on_event(ev(2, 5, 1_000_000, MoveDirection::Up, 0.0, 0.0, 0.0)).is_none());
    let m = matcher.on_event(ev(1, 6, 4_000_000, MoveDirection::Up, 0.0, 0.0, 0.0)).unwrap();
    assert_eq!(m.leader, 2);
    assert_eq!(m.follower, 1);
    assert_eq!(m.signed_delta_ns, -3_000_000);
    assert_eq!(m.abs_delta_ns, 3_000_000);
    assert_eq!(m.t_leader, MonoNs(1_000_000));
    assert_eq!(m.t_follower, MonoNs(4_000_000));
    assert_eq!(m.match_id, 1);

    // Two equally close candidates: the lower trigger sequence wins.
    assert!(matcher.on_event(ev(1, 9, 20_000_000, MoveDirection::Down, 0.0, 0.0, 0.0)).is_none());
    assert!(matcher.on_event(ev(1, 8, 24_000_000, MoveDirection::Down, 0.0, 0.0, 0.0)).is_none());
    let m = matcher.on_event(ev(2, 1, 22_000_000, MoveDirection::Down, 0.0, 0.0, 0.0)).unwrap();
    assert_eq!(m.leader, 2);
    assert_eq!(m.follower_event.trigger_sequence, 8);
    assert_eq!(m.signed_delta_ns, -2_000_000);
    assert_eq!(m.match_id, 2);

    // Outside the 10 ms window: no match; the capacity of 2 drops the oldest.
    assert!(matcher.on_event(ev(2, 2, 100_000_000, MoveDirection::Down, 0.0, 0.0, 0.0)).is_none());
    assert_eq!(matcher.pending_lens(), (1, 1));
    assert!(matcher.on_event(ev(2, 3, 101_000_000, MoveDirection::Up, 0.0, 0.0, 0.0)).is_none());
    assert!(matcher.on_event(ev(2, 4, 102_000_000, MoveDirection::Up, 0.0, 0.0, 0.0)).is_none());
    assert_eq!(matcher.pending_lens(), (1, 2));

    // Another segment or broker is ignored.
    assert!(matcher.on_event(MoveEvent { segment_id: 2, ..ev(1, 1, 101_500_000, MoveDirection::Up, 0.0, 0.0, 0.0) }).is_none());
    assert!(matcher.on_event(ev(3, 1, 101_500_000, MoveDirection::Up, 0.0, 0.0, 0.0)).is_none());
    assert_eq!(matcher.pending_lens(), (1, 2));

    matcher.advance_watermark(MonoNs(111_500_000));
    assert_eq!(matcher.pending_lens(), (0, 1));
    matcher.reset(7);
    assert_eq!(matcher.pending_lens(), (0, 0));
    assert_eq!(matcher.match_count(), 0);
    assert_eq!((matcher.broker_a(), matcher.broker_b()), (1, 2));
}
