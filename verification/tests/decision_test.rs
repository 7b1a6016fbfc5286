//! Small integer decisions of the live view, deployment and logging, and
//! the byte-level facts behind resynchronisation and record envelopes.

use tick_compare::contracts::types::{LogMetadata, LogRecord, MonoNs};
use tick_compare::metrics::latency::{total_source, TotalSource};
use tick_compare::protocol::codec::StreamingDecoder;
use tick_compare::runtime::deploy::{deploy_plan, no_brokers_warning, DeployPlan};
use tick_compare::storage::logger::{encode_record, fits_envelope};
use tick_compare::tick::freshness::{match_on_display, ms_as_ns, received_within, within_skew};

#[test]
fn deploy_plan_checks_switch_then_brokers() {
    assert_eq!(deploy_plan(false, 0), DeployPlan::Disabled);
    assert_eq!(deploy_plan(false, 3), DeployPlan::Disabled);
    assert_eq!(deploy_plan(true, 0), DeployPlan::NoBrokers);
    assert_eq!(deploy_plan(true, 2), DeployPlan::Deploy);
    assert_eq!(
        no_brokers_warning(),
        "Broker configuration is required to deploy the common TickCollector EA and its connection map."
    );
}

#[test]
fn total_latency_row_source() {
    assert_eq!(total_source(7, [0, 0, 0, 0]), TotalSource::Recorded);
    assert_eq!(total_source(0, [5, 3, 9, 4]), TotalSource::Summed { sample_count: 3 });
    assert_eq!(total_source(0, [5, 3, 0, 4]), TotalSource::Missing);
    assert_eq!(total_source(0, [0, 0, 0, 0]), TotalSource::Missing);
}

#[test]
fn quote_freshness_window() {
    assert_eq!(ms_as_ns(1500), 1_500_000_000);
    assert_eq!(ms_as_ns(u64::MAX), u64::MAX);
    assert!(received_within(3_000_000_000, 1_500_000_000, 1500));
    assert!(!received_within(3_000_000_001, 1_500_000_000, 1500));
    // A receive time after "now" counts as just received.
    assert!(received_within(100, 200, 0));
    assert!(received_within(u64::MAX, 0, u64::MAX));
}

#[test]
fn pair_skew_window() {
    assert!(within_skew(1_000_000_000, 1_100_000_000, 100));
    assert!(within_skew(1_100_000_000, 1_000_000_000, 100));
    assert!(!within_skew(1_000_000_000, 1_100_000_001, 100));
    assert!(within_skew(5, 5, 0));
}

#[test]
fn matched_move_stays_on_display_five_seconds() {
    assert!(match_on_display(6_000_000_000, 1_000_000_000));
    assert!(!match_on_display(6_000_000_001, 1_000_000_000));
    assert!(match_on_display(0, 10));
}

#[test]
fn record_envelope_fields() {
    let rec = LogRecord::Metadata(LogMetadata {
        config_epoch: 2,
        observed_mono_ns: MonoNs(9),
        toml_text: "a=1".to_string(),
    });
    assert!(fits_envelope(&rec));
    let b = encode_record(&rec, 42).unwrap();
    assert_eq!(b.len(), 24 + 20 + 3);
    assert_eq!(u32::from_le_bytes([b[0], b[1], b[2], b[3]]) as usize, b.len());
    assert_eq!(u16::from_le_bytes([b[4], b[5]]), 2);
    assert_eq!(u16::from_le_bytes([b[6], b[7]]), 0);
    assert_eq!(u64::from_le_bytes(b[8..16].try_into().unwrap()), 42);
    assert_eq!(&b[20..24], &[0, 0, 0, 0]);
    let mut zeroed = b.clone();
    zeroed[16..20].copy_from_slice(&[0, 0, 0, 0]);
    let crc = u32::from_le_bytes([b[16], b[17], b[18], b[19]]);
    assert_eq!(crc, tick_compare::contracts::crc32c::crc32c(&zeroed));
    assert_ne!(crc, 0);
}

#[test]
fn resync_finds_the_kcit_bytes() {
    let mut d = StreamingDecoder::new(1_048_576, 64);
    d.push(&[0x4B, 0x00, 0x4B, 0x43, 0x49, 0x54, 0x01]).unwrap();
    assert!(d.try_resync());
    assert_eq!(d.buffer_len(), 5);
    let mut d = StreamingDecoder::new(1_048_576, 64);
    // Magic at offset 0 only: offset 0 is never a resynchronisation point.
    d.push(&[0x4B, 0x43, 0x49, 0x54, 0x00]).unwrap();
    assert!(!d.try_resync());
    assert_eq!(d.buffer_len(), 5);
}
