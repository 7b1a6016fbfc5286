//! The ingress pipeline: merge order across brokers, overflow, connection
//! ends and candle views.

use std::sync::Arc;
use tick_compare::contracts::config::AppConfig;
use tick_compare::contracts::types::{
    ConnectionState, DiagnosticSeverity, Frame, FramePayload, Header, IngressItem, MonoNs,
    ReceivedFrame, RunId, TickRecord, UtcMs,
};
use tick_compare::tick::pipeline::{IngressPipeline, PipelineStep};

fn batch(broker: u32, rx: u64, index: u64, seq: u64) -> ReceivedFrame {
    let tick = TickRecord {
        sequence: seq,
        broker_time_msc: 1_000,
        ea_elapsed_us: 0,
        bid_bits: 150.0f64.to_bits(),
        ask_bits: 150.02f64.to_bits(),
        last_bits: 0,
        volume: 1,
        volume_real_bits: 0,
        flags: 0,
        reserved: 0,
    };
    ReceivedFrame {
        frame: Frame {
            header: Header {
                magic: 0,
                protocol_version: 1,
                message_type: 1,
                header_length: 40,
                header_flags: 0,
                broker_id: broker,
                session_id: 7,
                sequence_start: seq,
                tick_count: 1,
                payload_length: 72,
            },
            payload: FramePayload::TickBatch(vec![tick]),
        },
        raw_wire_bytes: Arc::new(vec![0; 112]),
        run_id: RunId([0; 16]),
        rx_mono_ns: MonoNs(rx),
        rx_unix_ns: None,
        connection_generation: 1,
        frame_index: index,
    }
}

/// Runs the pipeline until it has nothing due; returns the frames it
/// processed as (channel, receive time, sequences of the new ticks), and
/// how many overflows were settled.
fn run(p: &mut IngressPipeline) -> (Vec<(usize, u64, Vec<u64>)>, usize) {
    let mut processed = Vec::new();
    let mut settled = 0;
    loop {
        match p.step() {
            PipelineStep::Processed { index, rx_mono_ns, accepted } => {
                processed.push((index, rx_mono_ns.0, accepted.iter().map(|a| a.observed.tick_id.sequence).collect()));
            }
            PipelineStep::Settled => settled += 1,
            PipelineStep::Idle => break,
            PipelineStep::Blocked { .. } => panic!("blocked"),
        }
    }
    (processed, settled)
}

fn connect(p: &mut IngressPipeline, broker: u32) {
    assert!(p.on_ingress_item(IngressItem::Connected { broker_id: broker, generation: 1, connected_at_mono: MonoNs(0) }).is_some());
    run(p);
}

#[test]
fn frames_are_merged_by_receive_time_up_to_the_watermark() {
    let config = AppConfig::default();
    let mut p = IngressPipeline::new(&config);
    assert_eq!(p.broker_ids(), vec![1, 2]);
    connect(&mut p, 1);
    connect(&mut p, 2);
    assert!(p.is_connected(0) && p.is_connected(1));

    // Broker 2 has seen nothing yet: the merge waits.
    assert_eq!(p.on_ingress_item(IngressItem::Frame(batch(1, 20, 1, 0))), Some(0));
    assert_eq!(run(&mut p), (vec![], 1));
    assert_eq!(p.watermark(), MonoNs(0));

    // Broker 2's earlier frame goes first; broker 1's is not yet due.
    assert_eq!(p.on_ingress_item(IngressItem::Frame(batch(2, 10, 1, 0))), Some(1));
    assert_eq!(run(&mut p), (vec![(1, 10, vec![0])], 1));
    assert_eq!(p.watermark(), MonoNs(10));

    // Progress of broker 2 releases broker 1's frame.
    assert_eq!(p.on_ingress_item(IngressItem::Progress { broker_id: 2, watermark_ns: MonoNs(30) }), Some(1));
    assert_eq!(run(&mut p), (vec![(0, 20, vec![0])], 1));
    assert_eq!(p.watermark(), MonoNs(20));
    assert_eq!(p.health(0).total_ticks_received, 1);
    assert_eq!(p.health(1).total_ticks_received, 1);
}

#[test]
fn items_of_unknown_brokers_change_nothing() {
    let config = AppConfig::default();
    let mut p = IngressPipeline::new(&config);
    assert_eq!(p.on_ingress_item(IngressItem::Frame(batch(9, 5, 1, 0))), None);
    assert!(matches!(p.step(), PipelineStep::Idle));
    assert!(p.diagnostics().is_empty());
}

#[test]
fn overflow_is_processed_out_of_order_and_reported() {
    let mut config = AppConfig::default();
    config.ingress.max_frames_per_broker = 1;
    let mut p = IngressPipeline::new(&config);
    connect(&mut p, 1);
    connect(&mut p, 2);
    p.on_ingress_item(IngressItem::Frame(batch(1, 5, 1, 0)));
    assert_eq!(run(&mut p), (vec![], 1));
    p.on_ingress_item(IngressItem::Frame(batch(1, 6, 2, 1)));
    assert_eq!(run(&mut p), (vec![(0, 5, vec![0])], 1));
    assert!(p.health(0).overload.engine);
    assert!(!p.health(1).overload.engine);
    let diags = p.diagnostics();
    assert_eq!(diags.len(), 1);
    assert_eq!(diags[0].code, "MERGE_BACKPRESSURE");
    assert_eq!(diags[0].severity, DiagnosticSeverity::Warn);
    assert_eq!(diags[0].broker_id, 1);
    assert_eq!(diags[0].session_id, Some(7));
    assert_eq!(diags[0].known_count, Some(1));
}

#[test]
fn a_closed_connection_is_reported() {
    let config = AppConfig::default();
    let mut p = IngressPipeline::new(&config);
    connect(&mut p, 1);
    // An end of another generation leaves the connection open.
    p.on_ingress_item(IngressItem::End { broker_id: 1, generation: 2, reason: "old".to_string() });
    run(&mut p);
    assert!(p.is_connected(0));
    assert!(p.diagnostics().is_empty());

    p.on_ingress_item(IngressItem::End { broker_id: 1, generation: 1, reason: "peer left".to_string() });
    run(&mut p);
    assert!(!p.is_connected(0));
    assert_eq!(p.health(0).connection, ConnectionState::Disconnected);
    let diags = p.diagnostics();
    assert_eq!(diags.len(), 1);
    assert_eq!(diags[0].code, "CONNECTION_CLOSED");
    assert_eq!(diags[0].severity, DiagnosticSeverity::Info);
    assert_eq!(diags[0].message, "peer left");
}

#[test]
fn candle_views_need_slots_that_are_instants() {
    let config = AppConfig::default();
    let p = IngressPipeline::new(&config);
    assert!(p.candle_view(0, &[1, 2], 10, UtcMs(1_000_000)).is_none());
    assert!(p.candle_view(1000, &[1], 10, UtcMs(i64::MIN)).is_none());
    let v = p.candle_view(1000, &[1, 2], 60, UtcMs(1_000_000)).unwrap();
    assert_eq!(v.period_ms, 1000);
    assert_eq!(v.slot_starts.len(), 60);
    assert_eq!(v.slot_starts[59], UtcMs(1_000_000));
    assert_eq!(v.slots_by_broker.len(), 2);
}
