//! Binary log: every record kind round-trips, corruption and truncation are
//! reported.

use std::sync::Arc;
use tick_compare::contracts::types::{
    Diagnostic, DiagnosticSeverity, LogMetadata, LogRawFrame, LogRecord, MonoNs, RunId,
    SequenceDisposition,
};
use tick_compare::storage::logger::{
    create_file_header, encode_record, file_header_at, log_broker_id, queued_record_bytes, reserve_queue_bytes,
    RECORD_ENVELOPE_LEN,
};
use tick_compare::storage::reader::{LogFileReader, ReadResult};

fn raw_record() -> LogRecord {
    LogRecord::RawFrame(LogRawFrame {
        broker_id: 1,
        connection_generation: 1,
        frame_index: 10,
        rx_mono_ns: MonoNs(123456789),
        rx_unix_ns: Some(1700000000000),
        config_epoch: 1,
        analysis_segment: 1,
        raw_wire_bytes: Arc::new(vec![0xAA, 0xBB, 0xCC, 0xDD]),
        dispositions: vec![SequenceDisposition::New, SequenceDisposition::DuplicateExact],
    })
}

fn meta_record(text: &str) -> LogRecord {
    LogRecord::Metadata(LogMetadata {
        config_epoch: 1,
        observed_mono_ns: MonoNs(100),
        toml_text: text.to_string(),
    })
}

fn diag_record() -> LogRecord {
    LogRecord::Diagnostic(Diagnostic {
        code: "SEQUENCE_GAP".to_string(),
        severity: DiagnosticSeverity::Warn,
        broker_id: 1,
        session_id: Some(10),
        mono_ns: MonoNs(200),
        sequence_range: Some((100, 105)),
        known_count: Some(5),
        detail_value: -1,
        message: "Missing sequences 100..105".to_string(),
    })
}

#[test]
fn test_tg01_roundtrip_all_record_kinds() {
    let run_id = RunId([0x42; 16]);
    let raw = raw_record();
    let meta = meta_record("[test]\nkey = 'value'\n");
    let diag = diag_record();

    let mut stream_bytes = Vec::new();
    let file_header = create_file_header(run_id, 1, 1);
    stream_bytes.extend_from_slice(&file_header);

    let bytes_raw = encode_record(&raw, 0).unwrap();
    let bytes_meta = encode_record(&meta, 1).unwrap();
    let bytes_diag = encode_record(&diag, 2).unwrap();

    stream_bytes.extend_from_slice(&bytes_raw);
    stream_bytes.extend_from_slice(&bytes_meta);
    stream_bytes.extend_from_slice(&bytes_diag);

    let mut reader = LogFileReader::new(stream_bytes).expect("Must parse header");

    assert_eq!(reader.run_id(), run_id);
    assert_eq!(reader.file_id(), 1);
    assert_eq!(reader.broker_id(), 1);

    match reader.next_record() {
        ReadResult::Record(LogRecord::RawFrame(r)) => {
            assert_eq!(r.broker_id, 1);
            assert_eq!(r.frame_index, 10);
            assert_eq!(r.rx_mono_ns, MonoNs(123456789));
            assert_eq!(r.rx_unix_ns, Some(1700000000000));
            assert_eq!(*r.raw_wire_bytes, vec![0xAA, 0xBB, 0xCC, 0xDD]);
            assert_eq!(r.dispositions.len(), 2);
        }
        other => panic!("Expected RawFrame, got {:?}", other),
    }

    match reader.next_record() {
        ReadResult::Record(LogRecord::Metadata(m)) => {
            assert_eq!(m.config_epoch, 1);
            assert_eq!(m.toml_text, "[test]\nkey = 'value'\n");
        }
        other => panic!("Expected Metadata, got {:?}", other),
    }

    match reader.next_record() {
        ReadResult::Record(LogRecord::Diagnostic(d)) => {
            assert_eq!(d.code, "SEQUENCE_GAP");
            assert_eq!(d.severity, DiagnosticSeverity::Warn);
            assert_eq!(d.sequence_range, Some((100, 105)));
        }
        other => panic!("Expected Diagnostic, got {:?}", other),
    }

    assert_eq!(reader.next_record(), ReadResult::CleanEof);
}

#[test]
fn test_tg02_corrupt_and_truncated_tail() {
    let run_id = RunId([1u8; 16]);
    let meta = meta_record("test");

    let mut stream_bytes = Vec::new();
    stream_bytes.extend_from_slice(&create_file_header(run_id, 1, 0));
    let mut record_bytes = encode_record(&meta, 0).unwrap();

    record_bytes[RECORD_ENVELOPE_LEN] ^= 0xFF;
    stream_bytes.extend_from_slice(&record_bytes);

    let mut reader = LogFileReader::new(stream_bytes).unwrap();
    let res = reader.next_record();
    assert!(matches!(res, ReadResult::Corrupt(msg) if msg.contains("CRC32C mismatch")));

    let mut partial_bytes = Vec::new();
    partial_bytes.extend_from_slice(&create_file_header(run_id, 2, 0));
    let valid_record = encode_record(&meta, 0).unwrap();
    partial_bytes.extend_from_slice(&valid_record[..RECORD_ENVELOPE_LEN + 2]);

    let mut reader2 = LogFileReader::new(partial_bytes).unwrap();
    let res2 = reader2.next_record();
    assert!(matches!(res2, ReadResult::TruncatedTail(_)));
}

#[test]
fn records_read_back_exactly() {
    let records = [raw_record(), meta_record("ünïcödé ✓"), diag_record()];
    let mut bytes = create_file_header(RunId([7; 16]), 9, 1).to_vec();
    for (i, r) in records.iter().enumerate() {
        bytes.extend_from_slice(&encode_record(r, i as u64).unwrap());
    }
    let mut reader = LogFileReader::new(bytes).unwrap();
    for r in records.iter() {
        assert_eq!(reader.next_record(), ReadResult::Record(r.clone()));
    }
    assert_eq!(reader.next_record(), ReadResult::CleanEof);
    assert_eq!(reader.next_record(), ReadResult::CleanEof);
}

#[test]
fn envelope_layout_and_header_layout() {
    let bytes = encode_record(&meta_record("ab"), 5).unwrap();
    assert_eq!(bytes.len(), 24 + 20 + 2);
    assert_eq!(u32::from_le_bytes(bytes[0..4].try_into().unwrap()), 46);
    assert_eq!(u16::from_le_bytes(bytes[4..6].try_into().unwrap()), 2);
    assert_eq!(u64::from_le_bytes(bytes[8..16].try_into().unwrap()), 5);
    let mut unsigned = bytes.clone();
    unsigned[16..20].copy_from_slice(&[0, 0, 0, 0]);
    let crc = tick_compare::contracts::crc32c::crc32c(&unsigned);
    assert_eq!(u32::from_le_bytes(bytes[16..20].try_into().unwrap()), crc);

    let h = create_file_header(RunId([3; 16]), 0x0102, 7);
    assert_eq!(&h[0..4], b"TLOG");
    assert_eq!(&h[4..8], &[1, 0, 56, 0]);
    assert_eq!(&h[8..24], &[3u8; 16]);
    assert_eq!(&h[24..32], &0x0102u64.to_le_bytes());
    assert_eq!(&h[32..40], &[7, 0, 0, 0, 0, 0, 0, 0]);
    assert_eq!(&h[48..56], &[0u8; 8]);
}

#[test]
fn reader_errors() {
    assert_eq!(
        LogFileReader::new(vec![0; 10]).err().unwrap(),
        "Failed to read file header: failed to fill whole buffer"
    );
    assert_eq!(
        LogFileReader::new(vec![0; 56]).err().unwrap(),
        "Invalid file magic, expected TLOG"
    );
    let mut h = create_file_header(RunId([0; 16]), 1, 0).to_vec();
    h[4] = 2;
    assert_eq!(LogFileReader::new(h.clone()).err().unwrap(), "Unsupported storage version: 2");
    h[4] = 1;
    h[6] = 57;
    assert_eq!(LogFileReader::new(h).err().unwrap(), "Invalid file header length: 57");

    // A file of broker 2 refuses a raw frame of broker 1.
    let mut bytes = create_file_header(RunId([0; 16]), 1, 2).to_vec();
    bytes.extend_from_slice(&encode_record(&raw_record(), 0).unwrap());
    let mut r = LogFileReader::new(bytes).unwrap();
    assert_eq!(
        r.next_record(),
        ReadResult::Corrupt("RawFrame broker 1 does not match file broker 2".to_string())
    );
    assert_eq!(r.next_record(), ReadResult::CleanEof);

    // An envelope whose total length is below 24.
    let mut bytes = create_file_header(RunId([0; 16]), 1, 0).to_vec();
    let mut env = vec![0u8; 24];
    env[0] = 10;
    bytes.extend_from_slice(&env);
    let mut r = LogFileReader::new(bytes).unwrap();
    assert_eq!(
        r.next_record(),
        ReadResult::Corrupt("total_length 10 is smaller than envelope header 24".to_string())
    );

    // A partial envelope.
    let mut bytes = create_file_header(RunId([0; 16]), 1, 0).to_vec();
    bytes.extend_from_slice(&[1, 2, 3]);
    let mut r = LogFileReader::new(bytes).unwrap();
    assert_eq!(r.next_record(), ReadResult::TruncatedTail(3));
}

#[test]
fn queue_accounting() {
    assert_eq!(queued_record_bytes(&raw_record()), 4 + 2 + 128);
    assert_eq!(queued_record_bytes(&meta_record("abc")), 3 + 64);
    assert_eq!(queued_record_bytes(&diag_record()), 12 + 26 + 128);
    assert_eq!(log_broker_id(&meta_record("x")), 0);
    assert_eq!(log_broker_id(&diag_record()), 1);
    assert_eq!(reserve_queue_bytes(10, 5, 15), Some(15));
    assert_eq!(reserve_queue_bytes(10, 6, 15), None);
    assert_eq!(reserve_queue_bytes(usize::MAX, 1, usize::MAX), None);
}

#[test]
fn file_header_at_a_given_time() {
    let h = file_header_at(RunId([5; 16]), 42, 3, -1_234_567_890_123);
    assert_eq!(&h[0..4], b"TLOG");
    assert_eq!(&h[4..8], &[1, 0, 56, 0]);
    assert_eq!(&h[8..24], &[5u8; 16]);
    assert_eq!(&h[24..32], &42u64.to_le_bytes());
    assert_eq!(&h[32..40], &[3, 0, 0, 0, 0, 0, 0, 0]);
    assert_eq!(&h[40..48], &(-1_234_567_890_123i64).to_le_bytes());
    assert_eq!(&h[48..56], &[0u8; 8]);
    let reader = LogFileReader::new(h.to_vec()).unwrap();
    assert_eq!(reader.run_id(), RunId([5; 16]));
    assert_eq!(reader.file_id(), 42);
    assert_eq!(reader.broker_id(), 3);
}
