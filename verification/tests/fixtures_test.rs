//! Golden byte vectors of the wire format.

use tick_compare::contracts::crc32c::crc32c;
use tick_compare::contracts::types::{HEADER_LENGTH, MAGIC_TICK, MSG_TYPE_TICK_BATCH, PROTOCOL_VERSION};
use tick_compare::protocol::packet::{decode_header, decode_tick_record};

const GOLDEN_HEADER_BYTES: [u8; 40] = [
    0x4B, 0x43, 0x49, 0x54, 0x01, 0x00, 0x01, 0x00, 0x28, 0x00, 0x00, 0x00, 0x01, 0x00, 0x00,
    0x00, 0x01, 0x00, 0x00, 0x00, 0x00, 0x00, 0x00, 0x00, 0x00, 0x00, 0x00, 0x00, 0x00, 0x00,
    0x00, 0x00, 0x01, 0x00, 0x00, 0x00, 0x48, 0x00, 0x00, 0x00,
];

const GOLDEN_TICK_RECORD_BYTES: [u8; 72] = [
    0x00, 0x00, 0x00, 0x00, 0x00, 0x00, 0x00, 0x00, 0xE8, 0x03, 0x00, 0x00, 0x00, 0x00, 0x00,
    0x00, 0x0A, 0x00, 0x00, 0x00, 0x00, 0x00, 0x00, 0x00, 0x00, 0x00, 0x00, 0x00, 0x00, 0x00,
    0xF0, 0x3F, 0x00, 0x00, 0x00, 0x00, 0x00, 0x00, 0x00, 0x40, 0x00, 0x00, 0x00, 0x00, 0x00,
    0x00, 0x00, 0x00, 0x01, 0x00, 0x00, 0x00, 0x00, 0x00, 0x00, 0x00, 0x00, 0x00, 0x00, 0x00,
    0x00, 0x00, 0xF0, 0x3F, 0x00, 0x00, 0x00, 0x00, 0x00, 0x00, 0x00, 0x00,
];

const CRC32C_INPUT_BYTES: &[u8] = b"123456789";
const CRC32C_EXPECTED_U32: u32 = 0xE3069283;

#[test]
fn test_golden_header_dimensions() {
    assert_eq!(GOLDEN_HEADER_BYTES.len(), 40);
    let magic = u32::from_le_bytes(GOLDEN_HEADER_BYTES[0..4].try_into().unwrap());
    assert_eq!(magic, 0x5449434B);
    let h = decode_header(&GOLDEN_HEADER_BYTES).unwrap();
    assert_eq!(h.magic, MAGIC_TICK);
    assert_eq!(h.payload_length, 72);
}

#[test]
fn test_golden_tick_dimensions() {
    assert_eq!(GOLDEN_TICK_RECORD_BYTES.len(), 72);
    let time_msc = i64::from_le_bytes(GOLDEN_TICK_RECORD_BYTES[8..16].try_into().unwrap());
    assert_eq!(time_msc, 1000);
    let bid = f64::from_le_bytes(GOLDEN_TICK_RECORD_BYTES[24..32].try_into().unwrap());
    assert_eq!(bid, 1.0);
    let ask = f64::from_le_bytes(GOLDEN_TICK_RECORD_BYTES[32..40].try_into().unwrap());
    assert_eq!(ask, 2.0);
    let (tick, warning) = decode_tick_record(&GOLDEN_TICK_RECORD_BYTES);
    assert_eq!(tick.broker_time_msc, 1000);
    assert_eq!(f64::from_bits(tick.bid_bits), 1.0);
    assert_eq!(f64::from_bits(tick.ask_bits), 2.0);
    assert!(warning.is_none());
}

#[test]
fn test_crc32c_vector() {
    let res = crc32c(CRC32C_INPUT_BYTES);
    assert_eq!(res, CRC32C_EXPECTED_U32);
}

#[test]
fn test_golden_wire_fixtures_match() {
    assert_eq!(GOLDEN_HEADER_BYTES.len(), 40);
    assert_eq!(GOLDEN_TICK_RECORD_BYTES.len(), 72);

    let magic = u32::from_le_bytes(GOLDEN_HEADER_BYTES[0..4].try_into().unwrap());
    assert_eq!(magic, MAGIC_TICK);

    let version = u16::from_le_bytes(GOLDEN_HEADER_BYTES[4..6].try_into().unwrap());
    assert_eq!(version, PROTOCOL_VERSION);

    let msg_type = u16::from_le_bytes(GOLDEN_HEADER_BYTES[6..8].try_into().unwrap());
    assert_eq!(msg_type, MSG_TYPE_TICK_BATCH);

    let header_len = u16::from_le_bytes(GOLDEN_HEADER_BYTES[8..10].try_into().unwrap());
    assert_eq!(header_len, HEADER_LENGTH);

    let tick_count = u32::from_le_bytes(GOLDEN_HEADER_BYTES[32..36].try_into().unwrap());
    assert_eq!(tick_count, 1);

    let payload_len = u32::from_le_bytes(GOLDEN_HEADER_BYTES[36..40].try_into().unwrap());
    assert_eq!(payload_len, 72);
}

#[test]
fn test_storage_crc32c_fixture() {
    let crc = crc32c(CRC32C_INPUT_BYTES);
    assert_eq!(crc, CRC32C_EXPECTED_U32);
}
