//! UTC normalization, connection framing helpers, and the names of log
//! files and directories.

use std::sync::Arc;
use tick_compare::contracts::ports::ClockPort;
use tick_compare::contracts::types::{
    ClockReading, FramePayload, Header, LogRecord, MonoNs, ObservedTick, RunId,
    SequenceDisposition, TickId, TickRecord, UtcMs, MSG_TYPE_HEARTBEAT, MSG_TYPE_TICK_BATCH,
};
use tick_compare::protocol::codec::{encode_frame, DecodedFrame, StreamingDecoder};
use tick_compare::runtime::coordinator::SystemClock;
use tick_compare::storage::hex::encode;
use tick_compare::storage::logger::{broker_dir_name, log_file_name, utc_date_of, LogRouter};
use tick_compare::tick::normalize::normalize_tick;
use tick_compare::transport::router::parse_route_hello;
use tick_compare::transport::tcp::{batch_ack_frame, batch_ack_sequence_end, raw_frame_record, received_frame, should_ack};

fn observed(broker_time_msc: i64) -> ObservedTick {
    ObservedTick {
        tick_id: TickId { broker_id: 1, session_id: 1, sequence: 0 },
        record: TickRecord {
            sequence: 0,
            broker_time_msc,
            ea_elapsed_us: 100,
            bid_bits: 150.0f64.to_bits(),
            ask_bits: 150.02f64.to_bits(),
            last_bits: 0.0f64.to_bits(),
            volume: 1,
            volume_real_bits: 1.0f64.to_bits(),
            flags: 0,
            reserved: 0,
        },
        rx_mono_ns: MonoNs(100),
        rx_unix_ns: None,
        connection_generation: 1,
        frame_index: 1,
        is_warmup: false,
        segment_id: 1,
        disposition: SequenceDisposition::New,
    }
}

#[test]
fn test_normalization_checked_math() {
    let obs = observed(10_000);
    let norm = normalize_tick(&obs, 2, true, 1).unwrap();
    assert_eq!(norm.utc_ms, UtcMs(8_000));

    let unverified = normalize_tick(&obs, 2, false, 1);
    assert!(unverified.is_err());
}

#[test]
fn normalization_underflow_is_an_error() {
    let obs = observed(i64::MIN + 10);
    assert_eq!(
        normalize_tick(&obs, 1, true, 1).unwrap_err(),
        "Broker time UTC normalization arithmetic underflow"
    );
    assert_eq!(normalize_tick(&obs, 2, false, 1).unwrap_err(), "UTC offset not verified for broker 1");
}

#[test]
fn route_hello_and_acks() {
    assert_eq!(parse_route_hello(&[0x54, 0x53, 0x43, 0x50, 7, 1, 0, 0]), Some(263));
    assert_eq!(parse_route_hello(&[0x54, 0x53, 0x43, 0x51, 7, 0, 0, 0]), None);
    assert!(should_ack("per_batch", MSG_TYPE_TICK_BATCH));
    assert!(!should_ack("off", MSG_TYPE_TICK_BATCH));
    assert!(!should_ack("per_batch", MSG_TYPE_HEARTBEAT));

    let ack = batch_ack_frame(3, 44, 99);
    let bytes = encode_frame(&ack).unwrap();
    let mut decoder = StreamingDecoder::new(1 << 16, 1024);
    decoder.push(&bytes).unwrap();
    let decoded = decoder.next_frame().unwrap().unwrap();
    assert_eq!(decoded.frame.header.broker_id, 3);
    assert_eq!(decoded.frame.header.session_id, 44);
    assert_eq!(decoded.frame.payload, ack.payload);

    let header = Header { sequence_start: 10, tick_count: 5, ..ack.header };
    assert_eq!(batch_ack_sequence_end(&header), 14);
}

#[test]
fn received_frames_take_the_connection_broker() {
    let ack = batch_ack_frame(3, 44, 99);
    let raw = Arc::new(encode_frame(&ack).unwrap());
    let decoded = DecodedFrame { frame: ack.clone(), raw_wire_bytes: raw.clone(), warnings: Vec::new() };
    let reading = ClockReading { run_id: RunId([7; 16]), mono_ns: MonoNs(55), unix_ns: Some(66) };
    let rf = received_frame(decoded, 9, reading, 2, 17);
    assert_eq!(rf.frame.header.broker_id, 9);
    assert_eq!(rf.rx_mono_ns, MonoNs(55));
    assert_eq!(rf.frame_index, 17);
    match raw_frame_record(&rf) {
        LogRecord::RawFrame(r) => {
            assert_eq!(r.broker_id, 9);
            assert_eq!(*r.raw_wire_bytes, *raw);
            assert!(r.dispositions.is_empty());
        }
        _ => panic!("expected a raw frame record"),
    }
    assert!(matches!(rf.frame.payload, FramePayload::BatchAck(_)));
}

#[test]
fn log_names_and_dates() {
    assert_eq!(encode(&[0x00, 0xAB, 0x7F]), "00ab7f");
    assert_eq!(broker_dir_name(0), "global");
    assert_eq!(broker_dir_name(7), "broker-007");
    assert_eq!(broker_dir_name(1234), "broker-1234");
    let mut id = [0u8; 16];
    id[0] = 0x12;
    id[15] = 0xFE;
    assert_eq!(log_file_name(RunId(id), 3), format!("run_12{}fe_0003.tlog", "0".repeat(28)));
    assert_eq!(utc_date_of(0), "1970-01-01");
    assert_eq!(utc_date_of(951_782_400), "2000-02-29");
    assert_eq!(utc_date_of(-1), "1969-12-31");
}

#[test]
fn log_router_rotates_by_date() {
    let mut router = LogRouter::new();
    let first = router.route(1, "2024-01-01");
    assert_eq!(first.open_file_id, Some(1));
    assert!(!first.close_previous);
    assert_eq!(first.record_index, 0);
    let second = router.route(1, "2024-01-01");
    assert_eq!(second.open_file_id, None);
    assert_eq!(second.record_index, 1);
    let other = router.route(2, "2024-01-01");
    assert_eq!(other.open_file_id, Some(2));
    let next_day = router.route(1, "2024-01-02");
    assert!(next_day.close_previous);
    assert_eq!(next_day.open_file_id, Some(3));
    assert_eq!(next_day.record_index, 0);
}

#[test]
fn system_clock_stamps_its_run() {
    let clock = SystemClock::new(RunId([3; 16]));
    let a = clock.sample();
    let b = clock.sample();
    assert_eq!(a.run_id, RunId([3; 16]));
    assert!(b.mono_ns >= a.mono_ns);
}
