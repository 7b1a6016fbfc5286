//! Wire protocol codec: golden vectors, split reads, malformed input,
//! reserved-field warnings and exact NaN bits.

use tick_compare::contracts::types::{
    BatchAckPayload, Frame, FramePayload, Header, HeartbeatPayload, StatusPayload, TickRecord,
    BATCH_ACK_PAYLOAD_LENGTH, HB_FLAG_HAS_LAST_TICK, HEADER_LENGTH, HEARTBEAT_PAYLOAD_LENGTH,
    MAGIC_TICK, MSG_TYPE_BATCH_ACK, MSG_TYPE_HEARTBEAT, MSG_TYPE_STATUS, MSG_TYPE_TICK_BATCH,
    PROTOCOL_VERSION, STATUS_PAYLOAD_LENGTH,
};
use tick_compare::protocol::codec::{encode_frame, StreamingDecoder};
use tick_compare::protocol::packet::{decode_header, ProtocolError};

#[test]
fn test_tw01_golden_vectors() {
    let mut decoder = StreamingDecoder::new(1_048_576, 65_536);

    let mut wire = Vec::new();
    wire.extend_from_slice(&[
        0x4B, 0x43, 0x49, 0x54, 0x01, 0x00, 0x01, 0x00, 0x28, 0x00, 0x00, 0x00, 0x01, 0x00, 0x00,
        0x00, 0x01, 0x00, 0x00, 0x00, 0x00, 0x00, 0x00, 0x00, 0x00, 0x00, 0x00, 0x00, 0x00, 0x00,
        0x00, 0x00, 0x01, 0x00, 0x00, 0x00, 0x48, 0x00, 0x00, 0x00,
    ]);
    wire.extend_from_slice(&[
        0x00, 0x00, 0x00, 0x00, 0x00, 0x00, 0x00, 0x00, 0xE8, 0x03, 0x00, 0x00, 0x00, 0x00, 0x00,
        0x00, 0x0A, 0x00, 0x00, 0x00, 0x00, 0x00, 0x00, 0x00, 0x00, 0x00, 0x00, 0x00, 0x00, 0x00,
        0xF0, 0x3F, 0x00, 0x00, 0x00, 0x00, 0x00, 0x00, 0x00, 0x40, 0x00, 0x00, 0x00, 0x00, 0x00,
        0x00, 0x00, 0x00, 0x01, 0x00, 0x00, 0x00, 0x00, 0x00, 0x00, 0x00, 0x00, 0x00, 0x00, 0x00,
        0x00, 0x00, 0xF0, 0x3F, 0x00, 0x00, 0x00, 0x00, 0x00, 0x00, 0x00, 0x00,
    ]);

    decoder.push(&wire).unwrap();
    let decoded = decoder.next_frame().unwrap().expect("Frame must decode");
    assert_eq!(decoded.frame.header.magic, MAGIC_TICK);
    assert_eq!(decoded.frame.header.tick_count, 1);
    if let FramePayload::TickBatch(ticks) = decoded.frame.payload {
        assert_eq!(ticks.len(), 1);
        assert_eq!(f64::from_bits(ticks[0].bid_bits), 1.0);
        assert_eq!(f64::from_bits(ticks[0].ask_bits), 2.0);
        assert_eq!(ticks[0].broker_time_msc, 1000);
    } else {
        panic!("Expected TickBatch payload");
    }
}

fn heartbeat_frame() -> Frame {
    Frame {
        header: Header {
            magic: MAGIC_TICK,
            protocol_version: PROTOCOL_VERSION,
            message_type: MSG_TYPE_HEARTBEAT,
            header_length: HEADER_LENGTH,
            header_flags: HB_FLAG_HAS_LAST_TICK,
            broker_id: 1,
            session_id: 42,
            sequence_start: 0,
            tick_count: 0,
            payload_length: HEARTBEAT_PAYLOAD_LENGTH as u32,
        },
        payload: FramePayload::Heartbeat(HeartbeatPayload {
            session_id: 42,
            last_sequence: 100,
            last_tick_time_msc: 2000,
            server_utc_offset_sec: 10800,
            heartbeat_elapsed_us: 500_000,
        }),
    }
}

fn batch_ack_frame() -> Frame {
    Frame {
        header: Header {
            magic: MAGIC_TICK,
            protocol_version: PROTOCOL_VERSION,
            message_type: MSG_TYPE_BATCH_ACK,
            header_length: HEADER_LENGTH,
            header_flags: 0,
            broker_id: 1,
            session_id: 42,
            sequence_start: 0,
            tick_count: 0,
            payload_length: BATCH_ACK_PAYLOAD_LENGTH as u32,
        },
        payload: FramePayload::BatchAck(BatchAckPayload { sequence_end: 100 }),
    }
}

#[test]
fn test_tw02_split_reads_and_coalesced_frames() {
    let frame1 = heartbeat_frame();
    let frame2 = batch_ack_frame();

    let bytes1 = encode_frame(&frame1).unwrap();
    let bytes2 = encode_frame(&frame2).unwrap();

    let mut combined = Vec::new();
    combined.extend_from_slice(&bytes1);
    combined.extend_from_slice(&bytes2);

    let mut decoder = StreamingDecoder::new(1_048_576, 65_536);
    let mut decoded_frames = Vec::new();

    for &b in &combined {
        decoder.push(&[b]).unwrap();
        while let Some(f) = decoder.next_frame().unwrap() {
            decoded_frames.push(f);
        }
    }

    assert_eq!(decoded_frames.len(), 2);
    assert_eq!(decoded_frames[0].frame.header.message_type, MSG_TYPE_HEARTBEAT);
    assert_eq!(decoded_frames[1].frame.header.message_type, MSG_TYPE_BATCH_ACK);
}

#[test]
fn test_tw03_malformed_errors() {
    let mut decoder = StreamingDecoder::new(1_048_576, 65_536);
    let mut bad_magic = vec![0u8; 40];
    bad_magic[0..4].copy_from_slice(&0xDEADBEEFu32.to_le_bytes());

    decoder.push(&bad_magic).unwrap();
    let err = decoder.next_frame().unwrap_err();
    assert!(matches!(err, ProtocolError::InvalidMagic(0xDEADBEEF)));
}

#[test]
fn test_tw04_reserved_warn_and_nan_bits() {
    let nan_val = f64::from_bits(0x7FF0_0000_0000_0001);
    assert!(nan_val.is_nan());

    let frame = Frame {
        header: Header {
            magic: MAGIC_TICK,
            protocol_version: PROTOCOL_VERSION,
            message_type: MSG_TYPE_TICK_BATCH,
            header_length: HEADER_LENGTH,
            header_flags: 0,
            broker_id: 2,
            session_id: 10,
            sequence_start: 5,
            tick_count: 1,
            payload_length: 72,
        },
        payload: FramePayload::TickBatch(vec![TickRecord {
            sequence: 5,
            broker_time_msc: 3000,
            ea_elapsed_us: 4000,
            bid_bits: nan_val.to_bits(),
            ask_bits: 158.234f64.to_bits(),
            last_bits: 0.0f64.to_bits(),
            volume: 1,
            volume_real_bits: 1.0f64.to_bits(),
            flags: 2,
            reserved: 0xCAFEBABE,
        }]),
    };

    let encoded = encode_frame(&frame).unwrap();
    let mut decoder = StreamingDecoder::new(1_048_576, 65_536);
    decoder.push(&encoded).unwrap();

    let decoded = decoder.next_frame().unwrap().expect("Must decode with warn");
    assert!(!decoded.warnings.is_empty(), "Must have warning for reserved != 0");
    assert!(decoded.warnings[0].contains("non-zero reserved"));
    assert_eq!(decoded.warnings[0], "Tick sequence 5 has non-zero reserved field: 0xCAFEBABE");

    if let FramePayload::TickBatch(ticks) = decoded.frame.payload {
        assert_eq!(ticks[0].bid_bits, nan_val.to_bits(), "Exact NaN bits must be preserved");
        assert_eq!(ticks[0].reserved, 0xCAFEBABE);
    } else {
        panic!("Expected TickBatch");
    }
}

fn status_frame(detail_flags: u32, first: u64, last: u64) -> Frame {
    Frame {
        header: Header {
            magic: MAGIC_TICK,
            protocol_version: PROTOCOL_VERSION,
            message_type: MSG_TYPE_STATUS,
            header_length: HEADER_LENGTH,
            header_flags: 0,
            broker_id: 3,
            session_id: 7,
            sequence_start: 0,
            tick_count: 0,
            payload_length: STATUS_PAYLOAD_LENGTH as u32,
        },
        payload: FramePayload::Status(StatusPayload {
            status_code: 2,
            phase: 1,
            detail_flags,
            sequence_first: first,
            sequence_last: last,
            affected_count: 9,
            ea_elapsed_us: 11,
            detail_value: -4,
        }),
    }
}

#[test]
fn encoded_frames_decode_back_with_exact_wire_bytes() {
    let frames = [heartbeat_frame(), batch_ack_frame(), status_frame(1, 3, 8)];
    for f in frames.iter() {
        let bytes = encode_frame(f).unwrap();
        let mut d = StreamingDecoder::new(1_048_576, 65_536);
        let mut stream = bytes.clone();
        stream.extend_from_slice(&[1, 2, 3]);
        d.push(&stream).unwrap();
        let got = d.next_frame().unwrap().unwrap();
        assert_eq!(&got.frame, f);
        assert_eq!(*got.raw_wire_bytes, bytes);
        assert!(got.warnings.is_empty());
        assert_eq!(d.buffer_len(), 3);
        assert_eq!(d.next_frame(), Ok(None));
    }
}

#[test]
fn status_payload_errors_keep_the_frame_buffered() {
    let bytes = encode_frame(&status_frame(4, 0, 0)).unwrap();
    let mut d = StreamingDecoder::new(1_048_576, 65_536);
    d.push(&bytes).unwrap();
    assert_eq!(
        d.next_frame(),
        Err(ProtocolError::MalformedPayload("Invalid status detail flags: 0x00000004".to_string()))
    );
    assert_eq!(d.buffer_len(), bytes.len());

    let bytes = encode_frame(&status_frame(1, 9, 2)).unwrap();
    let mut d = StreamingDecoder::new(1_048_576, 65_536);
    d.push(&bytes).unwrap();
    assert_eq!(
        d.next_frame(),
        Err(ProtocolError::MalformedPayload("Status sequence_first (9) > sequence_last (2)".to_string()))
    );
}

fn header_bytes(patch: impl Fn(&mut Header)) -> Vec<u8> {
    let mut h = heartbeat_frame().header;
    patch(&mut h);
    let f = Frame { header: h, payload: heartbeat_frame().payload };
    encode_frame(&f).unwrap()[..40].to_vec()
}

#[test]
fn header_errors_in_check_order() {
    assert_eq!(decode_header(&[0u8; 10]), Err(ProtocolError::NeedMore { have: 10, need: 40 }));
    assert_eq!(
        decode_header(&header_bytes(|h| h.protocol_version = 2)),
        Err(ProtocolError::UnsupportedVersion(2))
    );
    assert_eq!(
        decode_header(&header_bytes(|h| h.header_length = 41)),
        Err(ProtocolError::InvalidHeaderLength(41))
    );
    assert_eq!(
        decode_header(&header_bytes(|h| h.message_type = 9)),
        Err(ProtocolError::UnknownMessageType(9))
    );
    assert_eq!(
        decode_header(&header_bytes(|h| h.header_flags = 1)),
        Err(ProtocolError::InvalidHeaderFlags { msg_type: MSG_TYPE_HEARTBEAT, flags: 1 })
    );
    assert_eq!(
        decode_header(&header_bytes(|h| h.payload_length = 2_000_000)),
        Err(ProtocolError::PayloadLengthExceedsMax(2_000_000))
    );
    assert_eq!(
        decode_header(&header_bytes(|h| h.payload_length = 35)),
        Err(ProtocolError::PayloadLengthMismatch { expected: 36, actual: 35 })
    );
    assert_eq!(
        decode_header(&header_bytes(|h| h.tick_count = 1)),
        Err(ProtocolError::MalformedPayload(
            "HEARTBEAT must have sequence_start=0 and tick_count=0".to_string()
        ))
    );
    let tick_header = |count: u32, len: u32| {
        header_bytes(move |h| {
            h.message_type = MSG_TYPE_TICK_BATCH;
            h.header_flags = 0;
            h.tick_count = count;
            h.payload_length = len;
        })
    };
    assert_eq!(
        decode_header(&tick_header(0, 0)),
        Err(ProtocolError::MalformedPayload("TICK_BATCH tick_count must be at least 1".to_string()))
    );
    assert_eq!(
        decode_header(&tick_header(2, 72)),
        Err(ProtocolError::PayloadLengthMismatch { expected: 144, actual: 72 })
    );
    assert!(decode_header(&tick_header(2, 144)).is_ok());
}

#[test]
fn decoder_buffer_limit_and_resync() {
    let mut d = StreamingDecoder::new(10, 64);
    assert_eq!(d.push(&[0u8; 100]), Ok(100));
    assert_eq!(d.push(&[0u8; 1]), Err(ProtocolError::PayloadLengthExceedsMax(101)));
    assert_eq!(d.buffer_len(), 100);

    let mut d = StreamingDecoder::new(1_048_576, 64);
    let mut junk = vec![0xFFu8, 0x00, 0x11];
    junk.extend_from_slice(&encode_frame(&batch_ack_frame()).unwrap());
    d.push(&junk).unwrap();
    assert!(matches!(d.next_frame(), Err(ProtocolError::InvalidMagic(_))));
    assert!(d.try_resync());
    assert_eq!(d.buffer_len(), 48);
    let f = d.next_frame().unwrap().unwrap();
    assert_eq!(f.frame, batch_ack_frame());

    let mut d = StreamingDecoder::new(1_048_576, 2);
    d.push(&junk).unwrap();
    assert!(!d.try_resync());
    assert_eq!(d.buffer_len(), junk.len());
}
