//! The engine's decisions: sequence ledger, channel, merge order,
//! diagnostics and health.

use std::sync::Arc;
use tick_compare::contracts::types::{
    BatchAckPayload, ConnectionState, Diagnostic, DiagnosticSeverity, Frame, FramePayload,
    FreshnessState, Header, HealthState, HeartbeatState, IngressItem, MonoNs, ReceivedFrame,
    RunId, SequenceDisposition, TickRecord,
};
use tick_compare::tick::engine::{
    calculate_global_watermark, health_at, select_next_frame, BrokerChannel, DiagnosticLog,
    MergeKey, SequenceLedger, MAX_DIAGNOSTICS,
};

fn tick(seq: u64) -> TickRecord {
    TickRecord {
        sequence: seq,
        broker_time_msc: 0,
        ea_elapsed_us: 0,
        bid_bits: 0,
        ask_bits: 0,
        last_bits: 0,
        volume: 0,
        volume_real_bits: 0,
        flags: 0,
        reserved: 0,
    }
}

#[test]
fn ledger_dispositions_and_gaps() {
    let mut l = SequenceLedger::new(3);
    let (d, g) = l.observe_batch(7, &[tick(0), tick(1), tick(1), tick(4), tick(2), tick(5)]);
    assert_eq!(
        d,
        vec![
            SequenceDisposition::New,
            SequenceDisposition::New,
            SequenceDisposition::DuplicateExact,
            SequenceDisposition::New,
            SequenceDisposition::OutOfOrderUnverified,
            SequenceDisposition::New,
        ]
    );
    assert_eq!(g, vec![(2, 3)]);
    assert_eq!(l.expected_sequence(), 6);
    // Sequence 0 fell out of the three-entry window; it is now out of order.
    assert_eq!(l.observe(0).0, SequenceDisposition::OutOfOrderUnverified);
    assert_eq!(l.observe(5).0, SequenceDisposition::DuplicateExact);
    // A new session starts over.
    let (d, g) = l.observe_batch(8, &[tick(0)]);
    assert_eq!(d, vec![SequenceDisposition::New]);
    assert!(g.is_empty());
    assert_eq!(l.session_id(), Some(8));
}

#[test]
fn ledger_of_capacity_zero_keeps_nothing() {
    let mut l = SequenceLedger::new(0);
    assert_eq!(l.observe(3), (SequenceDisposition::New, Some((0, 2))));
    assert_eq!(l.observe(3).0, SequenceDisposition::OutOfOrderUnverified);
    assert_eq!(l.observe(u64::MAX).0, SequenceDisposition::New);
    assert_eq!(l.expected_sequence(), u64::MAX);
}

fn received(broker: u32, rx: u64, index: u64, len: usize) -> ReceivedFrame {
    ReceivedFrame {
        frame: Frame {
            header: Header {
                magic: 0,
                protocol_version: 1,
                message_type: 3,
                header_length: 40,
                header_flags: 0,
                broker_id: broker,
                session_id: 1,
                sequence_start: 0,
                tick_count: 0,
                payload_length: 8,
            },
            payload: FramePayload::BatchAck(BatchAckPayload { sequence_end: 0 }),
        },
        raw_wire_bytes: Arc::new(vec![0; len]),
        run_id: RunId([0; 16]),
        rx_mono_ns: MonoNs(rx),
        rx_unix_ns: None,
        connection_generation: 1,
        frame_index: index,
    }
}

#[test]
fn channel_follows_ingress() {
    let mut c = BrokerChannel::new(1, 100);
    assert_eq!(c.apply_ingress(IngressItem::Connected { broker_id: 1, generation: 4, connected_at_mono: MonoNs(1) }), None);
    assert!(c.is_connected());
    c.apply_ingress(IngressItem::Progress { broker_id: 1, watermark_ns: MonoNs(50) });
    c.apply_ingress(IngressItem::Progress { broker_id: 1, watermark_ns: MonoNs(20) });
    assert_eq!(c.watermark(), MonoNs(50));
    c.apply_ingress(IngressItem::Frame(received(1, 60, 0, 48)));
    c.apply_ingress(IngressItem::Frame(received(1, 55, 1, 48)));
    assert_eq!(c.watermark(), MonoNs(60));
    assert_eq!(c.pending_len(), 2);
    assert!(c.over_capacity());
    assert_eq!(
        c.front_key(1),
        Some(MergeKey { rx_mono_ns: MonoNs(60), broker_id: 1, connection_generation: 1, frame_index: 0 })
    );
    assert_eq!(c.pop_frame().unwrap().frame_index, 0);
    assert!(!c.over_capacity());
    assert_eq!(
        c.apply_ingress(IngressItem::End { broker_id: 1, generation: 3, reason: "old".to_string() }),
        None
    );
    assert!(c.is_connected());
    assert_eq!(
        c.apply_ingress(IngressItem::End { broker_id: 1, generation: 4, reason: "bye".to_string() }),
        Some("bye".to_string())
    );
    assert!(!c.is_connected());
}

#[test]
fn merge_watermark_and_order() {
    assert_eq!(calculate_global_watermark(&[]), MonoNs(0));
    assert_eq!(
        calculate_global_watermark(&[(true, MonoNs(30)), (false, MonoNs(5)), (true, MonoNs(20))]),
        MonoNs(20)
    );
    assert_eq!(calculate_global_watermark(&[(false, MonoNs(30)), (false, MonoNs(5))]), MonoNs(30));

    let k = |rx: u64, b: u32, g: u64, i: u64| MergeKey {
        rx_mono_ns: MonoNs(rx),
        broker_id: b,
        connection_generation: g,
        frame_index: i,
    };
    let fronts = [k(10, 2, 1, 0), k(10, 1, 1, 5), k(40, 3, 1, 0), k(10, 1, 0, 9)];
    assert_eq!(select_next_frame(&fronts, MonoNs(30)), Some(3));
    assert_eq!(select_next_frame(&fronts, MonoNs(9)), None);
    assert_eq!(select_next_frame(&[k(u64::MAX - 1, 1, 0, 0)], MonoNs(u64::MAX)), Some(0));
    assert_eq!(select_next_frame(&[k(u64::MAX, 1, 0, 0)], MonoNs(u64::MAX)), None);
}

fn diag(i: u64) -> Diagnostic {
    Diagnostic {
        code: "C".to_string(),
        severity: DiagnosticSeverity::Info,
        broker_id: 1,
        session_id: None,
        mono_ns: MonoNs(i),
        sequence_range: None,
        known_count: None,
        detail_value: 0,
        message: String::new(),
    }
}

#[test]
fn diagnostic_log_keeps_the_latest() {
    let mut log = DiagnosticLog::new();
    for i in 0..(MAX_DIAGNOSTICS as u64 + 5) {
        log.push(diag(i));
    }
    let v = log.to_vec();
    assert_eq!(v.len(), MAX_DIAGNOSTICS);
    assert_eq!(v[0].mono_ns, MonoNs(5));
    assert_eq!(v[MAX_DIAGNOSTICS - 1].mono_ns, MonoNs(MAX_DIAGNOSTICS as u64 + 4));
}

#[test]
fn health_as_of_now() {
    let mut h = HealthState::default();
    h.connection = ConnectionState::Connected;
    h.last_live_tick_rx_mono = Some(MonoNs(1_000_000_000));
    h.last_heartbeat_rx_mono = Some(MonoNs(0));
    let r = health_at(&h, MonoNs(2_000_000_000), 1000, 1500);
    assert_eq!(r.data_freshness, FreshnessState::Live);
    assert_eq!(r.heartbeat, HeartbeatState::Timeout);
    let r = health_at(&h, MonoNs(2_000_000_001), 1000, 1500);
    assert_eq!(r.data_freshness, FreshnessState::Stale);
    h.connection = ConnectionState::Disconnected;
    assert_eq!(health_at(&h, MonoNs(9_000_000_000), 1, 1), h);
    let mut u = HealthState::default();
    u.connection = ConnectionState::Connected;
    let r = health_at(&u, MonoNs(5), u64::MAX, 0);
    assert_eq!((r.data_freshness, r.heartbeat), (FreshnessState::Unknown, HeartbeatState::Unknown));
}
