//! Byte layout of the wire messages: the 40-byte header, 72-byte tick
//! records, and the heartbeat, batch acknowledgement and status payloads.

use crate::contracts::le_bytes::{
    at16, at32, at64, get_i32, get_i64, get_u16, get_u32, get_u64, le_i32, le_i64, group_le_bytes, le16, le32, le64, lemma_from_le16,
    lemma_from_le32, lemma_from_le64, push_u16, push_u32, push_u64, put_bytes, splice,
};
use crate::contracts::types::{
    BatchAckPayload, Header, HeartbeatPayload, StatusPayload, TickRecord, STATUS_FLAG_HAS_EXACT_COUNT,
    STATUS_FLAG_HAS_SEQUENCE_RANGE, BATCH_ACK_PAYLOAD_LENGTH, HB_FLAG_HAS_LAST_TICK, HB_FLAG_HAS_OFFSET_SAMPLE,
    HEADER_FLAG_WARMUP, HEADER_LENGTH, HEARTBEAT_PAYLOAD_LENGTH, MAGIC_TICK, MAX_PAYLOAD_LENGTH,
    MSG_TYPE_BATCH_ACK, MSG_TYPE_HEARTBEAT, MSG_TYPE_STATUS, MSG_TYPE_TICK_BATCH, PROTOCOL_VERSION,
    STATUS_PAYLOAD_LENGTH, TICK_RECORD_LENGTH,
};
use crate::text::{dec, hex, push_dec, push_hex_padded, push_str, string_of, zero_pad};
use vstd::prelude::*;

verus! {

broadcast use group_le_bytes;

/// Why a byte sequence is not an acceptable frame.
#[derive(Debug, PartialEq, Eq, Clone)]
pub enum ProtocolError {
    NeedMore { have: usize, need: usize },
    InvalidMagic(u32),
    UnsupportedVersion(u16),
    InvalidHeaderLength(u16),
    UnknownMessageType(u16),
    InvalidHeaderFlags { msg_type: u16, flags: u16 },
    PayloadLengthMismatch { expected: usize, actual: usize },
    PayloadLengthExceedsMax(u32),
    ArithmeticOverflow,
    MalformedPayload(String),
}

/// `e` is a `MalformedPayload` error whose message reads `msg`.
pub open spec fn is_malformed(e: ProtocolError, msg: Seq<char>) -> bool {
    e matches ProtocolError::MalformedPayload(m) && m@ == msg
}

// ---------------------------------------------------------------------
// Header
// ---------------------------------------------------------------------

/// The 40 bytes that encode `h`.
pub open spec fn header_bytes(h: Header) -> Seq<u8> {
    le32(h.magic) + le16(h.protocol_version) + le16(h.message_type) + le16(h.header_length)
        + le16(h.header_flags) + le32(h.broker_id) + le64(h.session_id) + le64(h.sequence_start)
        + le32(h.tick_count) + le32(h.payload_length)
}

/// The header fields as they stand in the first 40 bytes of `s`.
pub open spec fn parse_header(s: Seq<u8>) -> Header {
    Header {
        magic: at32(s, 0),
        protocol_version: at16(s, 4),
        message_type: at16(s, 6),
        header_length: at16(s, 8),
        header_flags: at16(s, 10),
        broker_id: at32(s, 12),
        session_id: at64(s, 16),
        sequence_start: at64(s, 24),
        tick_count: at32(s, 32),
        payload_length: at32(s, 36),
    }
}

/// The message type is one of the four the protocol defines.
pub open spec fn known_message_type(t: u16) -> bool {
    t == MSG_TYPE_TICK_BATCH || t == MSG_TYPE_HEARTBEAT || t == MSG_TYPE_BATCH_ACK || t
        == MSG_TYPE_STATUS
}

/// The header flags allowed for a message type: only the warm-up bit for
/// tick batches, the two sample bits for heartbeats, none otherwise.
pub open spec fn flags_allowed(t: u16, flags: u16) -> bool {
    if t == MSG_TYPE_TICK_BATCH {
        flags & !HEADER_FLAG_WARMUP == 0
    } else if t == MSG_TYPE_HEARTBEAT {
        flags & !(HB_FLAG_HAS_LAST_TICK | HB_FLAG_HAS_OFFSET_SAMPLE) == 0
    } else {
        flags == 0
    }
}

/// The payload length a message type requires; for tick batches it is
/// `tick_count` records of 72 bytes.
pub open spec fn required_payload_length(h: Header) -> int {
    if h.message_type == MSG_TYPE_TICK_BATCH {
        h.tick_count as int * TICK_RECORD_LENGTH as int
    } else if h.message_type == MSG_TYPE_HEARTBEAT {
        HEARTBEAT_PAYLOAD_LENGTH as int
    } else if h.message_type == MSG_TYPE_BATCH_ACK {
        BATCH_ACK_PAYLOAD_LENGTH as int
    } else {
        STATUS_PAYLOAD_LENGTH as int
    }
}

pub open spec fn msg_tick_count_zero() -> Seq<char> {
    "TICK_BATCH tick_count must be at least 1"@
}

pub open spec fn msg_heartbeat_fields() -> Seq<char> {
    "HEARTBEAT must have sequence_start=0 and tick_count=0"@
}

pub open spec fn msg_batch_ack_fields() -> Seq<char> {
    "BATCH_ACK must have sequence_start=0 and tick_count=0"@
}

pub open spec fn msg_status_fields() -> Seq<char> {
    "STATUS must have sequence_start=0 and tick_count=0"@
}

/// The header passes every check of the protocol.
pub open spec fn header_valid(h: Header) -> bool {
    &&& h.magic == MAGIC_TICK
    &&& h.protocol_version == PROTOCOL_VERSION
    &&& h.header_length == HEADER_LENGTH
    &&& known_message_type(h.message_type)
    &&& flags_allowed(h.message_type, h.header_flags)
    &&& h.payload_length <= MAX_PAYLOAD_LENGTH
    &&& required_payload_length(h) <= usize::MAX
    &&& h.payload_length as int == required_payload_length(h)
    &&& if h.message_type == MSG_TYPE_TICK_BATCH {
        h.tick_count != 0
    } else {
        h.tick_count == 0 && h.sequence_start == 0
    }
}

/// What decoding the header `h` yields: the checks in the protocol's order,
/// the first that fails deciding the error.
pub open spec fn header_outcome(h: Header, r: Result<Header, ProtocolError>) -> bool {
    if h.magic != MAGIC_TICK {
        r == Err::<Header, ProtocolError>(ProtocolError::InvalidMagic(h.magic))
    } else if h.protocol_version != PROTOCOL_VERSION {
        r == Err::<Header, ProtocolError>(ProtocolError::UnsupportedVersion(h.protocol_version))
    } else if h.header_length != HEADER_LENGTH {
        r == Err::<Header, ProtocolError>(ProtocolError::InvalidHeaderLength(h.header_length))
    } else if !known_message_type(h.message_type) {
        r == Err::<Header, ProtocolError>(ProtocolError::UnknownMessageType(h.message_type))
    } else if !flags_allowed(h.message_type, h.header_flags) {
        r == Err::<Header, ProtocolError>(
            ProtocolError::InvalidHeaderFlags { msg_type: h.message_type, flags: h.header_flags },
        )
    } else if h.payload_length > MAX_PAYLOAD_LENGTH {
        r == Err::<Header, ProtocolError>(ProtocolError::PayloadLengthExceedsMax(h.payload_length))
    } else if required_payload_length(h) > usize::MAX {
        r == Err::<Header, ProtocolError>(ProtocolError::ArithmeticOverflow)
    } else if h.payload_length as int != required_payload_length(h) {
        r == Err::<Header, ProtocolError>(
            ProtocolError::PayloadLengthMismatch {
                expected: required_payload_length(h) as usize,
                actual: h.payload_length as usize,
            },
        )
    } else if h.message_type == MSG_TYPE_TICK_BATCH {
        if h.tick_count == 0 {
            r is Err && is_malformed(r->Err_0, msg_tick_count_zero())
        } else {
            r == Ok::<Header, ProtocolError>(h)
        }
    } else if h.tick_count != 0 || h.sequence_start != 0 {
        r is Err && is_malformed(
            r->Err_0,
            if h.message_type == MSG_TYPE_HEARTBEAT {
                msg_heartbeat_fields()
            } else if h.message_type == MSG_TYPE_BATCH_ACK {
                msg_batch_ack_fields()
            } else {
                msg_status_fields()
            },
        )
    } else {
        r == Ok::<Header, ProtocolError>(h)
    }
}

/// What `decode_header` yields on `buf`.
pub open spec fn decode_header_outcome(buf: Seq<u8>, r: Result<Header, ProtocolError>) -> bool {
    if buf.len() < HEADER_LENGTH {
        r == Err::<Header, ProtocolError>(
            ProtocolError::NeedMore { have: buf.len() as usize, need: HEADER_LENGTH as usize },
        )
    } else {
        header_outcome(parse_header(buf), r)
    }
}

/// Decoding succeeds exactly on valid headers, and then returns the header.
pub proof fn lemma_header_outcome_ok(h: Header, r: Result<Header, ProtocolError>)
    requires
        header_outcome(h, r),
    ensures
        r is Ok <==> header_valid(h),
        r is Ok ==> r->Ok_0 == h,
{
}

/// Decodes and validates a frame header from the start of `buf`.
pub fn decode_header(buf: &[u8]) -> (r: Result<Header, ProtocolError>)
    ensures
        decode_header_outcome(buf@, r),
{
    if buf.len() < HEADER_LENGTH as usize {
        return Err(ProtocolError::NeedMore { have: buf.len(), need: HEADER_LENGTH as usize });
    }
    let magic = get_u32(buf, 0);
    if magic != MAGIC_TICK {
        return Err(ProtocolError::InvalidMagic(magic));
    }
    let protocol_version = get_u16(buf, 4);
    if protocol_version != PROTOCOL_VERSION {
        return Err(ProtocolError::UnsupportedVersion(protocol_version));
    }
    let message_type = get_u16(buf, 6);
    let header_length = get_u16(buf, 8);
    if header_length != HEADER_LENGTH {
        return Err(ProtocolError::InvalidHeaderLength(header_length));
    }
    let header_flags = get_u16(buf, 10);
    if message_type == MSG_TYPE_TICK_BATCH {
        if (header_flags & !HEADER_FLAG_WARMUP) != 0 {
            return Err(ProtocolError::InvalidHeaderFlags { msg_type: message_type, flags: header_flags });
        }
    } else if message_type == MSG_TYPE_HEARTBEAT {
        if (header_flags & !(HB_FLAG_HAS_LAST_TICK | HB_FLAG_HAS_OFFSET_SAMPLE)) != 0 {
            return Err(ProtocolError::InvalidHeaderFlags { msg_type: message_type, flags: header_flags });
        }
    } else if message_type == MSG_TYPE_BATCH_ACK || message_type == MSG_TYPE_STATUS {
        if header_flags != 0 {
            return Err(ProtocolError::InvalidHeaderFlags { msg_type: message_type, flags: header_flags });
        }
    } else {
        return Err(ProtocolError::UnknownMessageType(message_type));
    }
    let broker_id = get_u32(buf, 12);
    let session_id = get_u64(buf, 16);
    let sequence_start = get_u64(buf, 24);
    let tick_count = get_u32(buf, 32);
    let payload_length = get_u32(buf, 36);
    let h = Header {
        magic,
        protocol_version,
        message_type,
        header_length,
        header_flags,
        broker_id,
        session_id,
        sequence_start,
        tick_count,
        payload_length,
    };
    assert(h == parse_header(buf@));
    if payload_length > MAX_PAYLOAD_LENGTH {
        return Err(ProtocolError::PayloadLengthExceedsMax(payload_length));
    }
    if message_type == MSG_TYPE_TICK_BATCH {
        let expected_len = match (tick_count as usize).checked_mul(TICK_RECORD_LENGTH) {
            Some(v) => v,
            None => {
                return Err(ProtocolError::ArithmeticOverflow);
            },
        };
        if payload_length as usize != expected_len {
            return Err(
                ProtocolError::PayloadLengthMismatch {
                    expected: expected_len,
                    actual: payload_length as usize,
                },
            );
        }
        if tick_count == 0 {
            return Err(
                ProtocolError::MalformedPayload(
                    string_of("TICK_BATCH tick_count must be at least 1"),
                ),
            );
        }
    } else if message_type == MSG_TYPE_HEARTBEAT {
        if payload_length as usize != HEARTBEAT_PAYLOAD_LENGTH {
            return Err(
                ProtocolError::PayloadLengthMismatch {
                    expected: HEARTBEAT_PAYLOAD_LENGTH,
                    actual: payload_length as usize,
                },
            );
        }
        if tick_count != 0 || sequence_start != 0 {
            return Err(
                ProtocolError::MalformedPayload(
                    string_of("HEARTBEAT must have sequence_start=0 and tick_count=0"),
                ),
            );
        }
    } else if message_type == MSG_TYPE_BATCH_ACK {
        if payload_length as usize != BATCH_ACK_PAYLOAD_LENGTH {
            return Err(
                ProtocolError::PayloadLengthMismatch {
                    expected: BATCH_ACK_PAYLOAD_LENGTH,
                    actual: payload_length as usize,
                },
            );
        }
        if tick_count != 0 || sequence_start != 0 {
            return Err(
                ProtocolError::MalformedPayload(
                    string_of("BATCH_ACK must have sequence_start=0 and tick_count=0"),
                ),
            );
        }
    } else {
        if payload_length as usize != STATUS_PAYLOAD_LENGTH {
            return Err(
                ProtocolError::PayloadLengthMismatch {
                    expected: STATUS_PAYLOAD_LENGTH,
                    actual: payload_length as usize,
                },
            );
        }
        if tick_count != 0 || sequence_start != 0 {
            return Err(
                ProtocolError::MalformedPayload(
                    string_of("STATUS must have sequence_start=0 and tick_count=0"),
                ),
            );
        }
    }
    Ok(h)
}

/// The 40 header bytes of `hdr`, in a new vector.
pub fn header_to_vec(hdr: &Header) -> (r: Vec<u8>)
    ensures
        r@ == header_bytes(*hdr),
        r@.len() == 40,
{
    let mut out: Vec<u8> = Vec::new();
    push_u32(&mut out, hdr.magic);
    push_u16(&mut out, hdr.protocol_version);
    push_u16(&mut out, hdr.message_type);
    push_u16(&mut out, hdr.header_length);
    push_u16(&mut out, hdr.header_flags);
    push_u32(&mut out, hdr.broker_id);
    push_u64(&mut out, hdr.session_id);
    push_u64(&mut out, hdr.sequence_start);
    push_u32(&mut out, hdr.tick_count);
    push_u32(&mut out, hdr.payload_length);
    assert(out@ =~= header_bytes(*hdr));
    out
}

/// Writes the 40 header bytes of `hdr` at the start of `buf`.
pub fn encode_header(hdr: &Header, buf: &mut [u8])
    requires
        old(buf)@.len() >= 40,
    ensures
        final(buf)@ == splice(old(buf)@, 0, header_bytes(*hdr)),
{
    let bytes = header_to_vec(hdr);
    put_bytes(buf, 0, bytes.as_slice());
}

/// Reading back the bytes of a header gives the header.
pub proof fn lemma_parse_header_bytes(h: Header)
    ensures
        header_bytes(h).len() == 40,
        parse_header(header_bytes(h)) == h,
{
    let s = header_bytes(h);
    assert(s.subrange(0, 4) =~= le32(h.magic));
    assert(s.subrange(4, 6) =~= le16(h.protocol_version));
    assert(s.subrange(6, 8) =~= le16(h.message_type));
    assert(s.subrange(8, 10) =~= le16(h.header_length));
    assert(s.subrange(10, 12) =~= le16(h.header_flags));
    assert(s.subrange(12, 16) =~= le32(h.broker_id));
    assert(s.subrange(16, 24) =~= le64(h.session_id));
    assert(s.subrange(24, 32) =~= le64(h.sequence_start));
    assert(s.subrange(32, 36) =~= le32(h.tick_count));
    assert(s.subrange(36, 40) =~= le32(h.payload_length));
}

/// Only the first 40 bytes of a buffer decide its header fields.
pub proof fn lemma_parse_header_prefix(s: Seq<u8>)
    requires
        s.len() >= 40,
    ensures
        parse_header(s) == parse_header(s.subrange(0, 40)),
{
    let t = s.subrange(0, 40);
    assert(s.subrange(0, 4) =~= t.subrange(0, 4));
    assert(s.subrange(4, 6) =~= t.subrange(4, 6));
    assert(s.subrange(6, 8) =~= t.subrange(6, 8));
    assert(s.subrange(8, 10) =~= t.subrange(8, 10));
    assert(s.subrange(10, 12) =~= t.subrange(10, 12));
    assert(s.subrange(12, 16) =~= t.subrange(12, 16));
    assert(s.subrange(16, 24) =~= t.subrange(16, 24));
    assert(s.subrange(24, 32) =~= t.subrange(24, 32));
    assert(s.subrange(32, 36) =~= t.subrange(32, 36));
    assert(s.subrange(36, 40) =~= t.subrange(36, 40));
}

/// Writing back the fields read from 40 bytes gives those bytes.
pub proof fn lemma_header_bytes_parse(s: Seq<u8>)
    requires
        s.len() == 40,
    ensures
        header_bytes(parse_header(s)) == s,
{
    let h = parse_header(s);
    lemma_from_le32(s.subrange(0, 4));
    lemma_from_le16(s.subrange(4, 6));
    lemma_from_le16(s.subrange(6, 8));
    lemma_from_le16(s.subrange(8, 10));
    lemma_from_le16(s.subrange(10, 12));
    lemma_from_le32(s.subrange(12, 16));
    lemma_from_le64(s.subrange(16, 24));
    lemma_from_le64(s.subrange(24, 32));
    lemma_from_le32(s.subrange(32, 36));
    lemma_from_le32(s.subrange(36, 40));
    assert(header_bytes(h) =~= s);
}


// ---------------------------------------------------------------------
// Tick records
// ---------------------------------------------------------------------

/// The 72 bytes that encode a tick record.
pub open spec fn tick_record_bytes(t: TickRecord) -> Seq<u8> {
    le64(t.sequence) + le_i64(t.broker_time_msc) + le64(t.ea_elapsed_us) + le64(t.bid_bits) + le64(
        t.ask_bits,
    ) + le64(t.last_bits) + le64(t.volume) + le64(t.volume_real_bits) + le32(t.flags) + le32(
        t.reserved,
    )
}

/// The tick record fields as they stand in the first 72 bytes of `s`.
pub open spec fn parse_tick_record(s: Seq<u8>) -> TickRecord {
    TickRecord {
        sequence: at64(s, 0),
        broker_time_msc: at64(s, 8) as i64,
        ea_elapsed_us: at64(s, 16),
        bid_bits: at64(s, 24),
        ask_bits: at64(s, 32),
        last_bits: at64(s, 40),
        volume: at64(s, 48),
        volume_real_bits: at64(s, 56),
        flags: at32(s, 64),
        reserved: at32(s, 68),
    }
}

/// The warning raised for a tick record whose reserved field is not zero.
pub open spec fn reserved_warning(sequence: u64, reserved: u32) -> Seq<char> {
    "Tick sequence "@ + dec(sequence as nat) + " has non-zero reserved field: 0x"@ + zero_pad(
        hex(reserved as nat),
        8,
    )
}

/// Decodes the tick record in the first 72 bytes of `buf`, with a warning
/// when its reserved field is not zero.
pub fn decode_tick_record(buf: &[u8]) -> (r: (TickRecord, Option<String>))
    requires
        buf@.len() >= 72,
    ensures
        r.0 == parse_tick_record(buf@),
        r.0.sequence == at64(buf@, 0),
        r.0.broker_time_msc == at64(buf@, 8) as i64,
        r.0.ea_elapsed_us == at64(buf@, 16),
        r.0.bid_bits == at64(buf@, 24),
        r.0.ask_bits == at64(buf@, 32),
        r.1 is Some <==> r.0.reserved != 0,
        r.1 matches Some(w) ==> w@ == reserved_warning(r.0.sequence, r.0.reserved),
{
    let sequence = get_u64(buf, 0);
    let broker_time_msc = get_i64(buf, 8);
    let ea_elapsed_us = get_u64(buf, 16);
    let bid_bits = get_u64(buf, 24);
    let ask_bits = get_u64(buf, 32);
    let last_bits = get_u64(buf, 40);
    let volume = get_u64(buf, 48);
    let volume_real_bits = get_u64(buf, 56);
    let flags = get_u32(buf, 64);
    let reserved = get_u32(buf, 68);
    let warn = if reserved != 0 {
        let mut w = string_of("Tick sequence ");
        push_dec(&mut w, sequence);
        push_str(&mut w, " has non-zero reserved field: 0x");
        push_hex_padded(&mut w, reserved as u64, 8);
        Some(w)
    } else {
        None
    };
    (
        TickRecord {
            sequence,
            broker_time_msc,
            ea_elapsed_us,
            bid_bits,
            ask_bits,
            last_bits,
            volume,
            volume_real_bits,
            flags,
            reserved,
        },
        warn,
    )
}

/// The 72 bytes of a tick record, in a new vector.
pub fn tick_record_to_vec(t: &TickRecord) -> (r: Vec<u8>)
    ensures
        r@ == tick_record_bytes(*t),
        r@.len() == 72,
        at64(r@, 0) == t.sequence,
        at64(r@, 16) == t.ea_elapsed_us,
{
    let mut out: Vec<u8> = Vec::new();
    push_u64(&mut out, t.sequence);
    push_u64(&mut out, t.broker_time_msc as u64);
    push_u64(&mut out, t.ea_elapsed_us);
    push_u64(&mut out, t.bid_bits);
    push_u64(&mut out, t.ask_bits);
    push_u64(&mut out, t.last_bits);
    push_u64(&mut out, t.volume);
    push_u64(&mut out, t.volume_real_bits);
    push_u32(&mut out, t.flags);
    push_u32(&mut out, t.reserved);
    assert(out@ =~= tick_record_bytes(*t));
    proof {
        lemma_tick_record_layout(out@, *t);
    }
    out
}

/// Writes the 72 bytes of `t` at the start of `buf`.
pub fn encode_tick_record(t: &TickRecord, buf: &mut [u8])
    requires
        old(buf)@.len() >= 72,
    ensures
        final(buf)@ == splice(old(buf)@, 0, tick_record_bytes(*t)),
{
    let bytes = tick_record_to_vec(t);
    put_bytes(buf, 0, bytes.as_slice());
}

/// Reading back the bytes of a tick record gives the record.
pub proof fn lemma_parse_tick_record_bytes(t: TickRecord)
    ensures
        tick_record_bytes(t).len() == 72,
        parse_tick_record(tick_record_bytes(t)) == t,
{
    let s = tick_record_bytes(t);
    assert(s.subrange(0, 8) =~= le64(t.sequence));
    assert(s.subrange(8, 16) =~= le64(t.broker_time_msc as u64));
    assert(s.subrange(16, 24) =~= le64(t.ea_elapsed_us));
    assert(s.subrange(24, 32) =~= le64(t.bid_bits));
    assert(s.subrange(32, 40) =~= le64(t.ask_bits));
    assert(s.subrange(40, 48) =~= le64(t.last_bits));
    assert(s.subrange(48, 56) =~= le64(t.volume));
    assert(s.subrange(56, 64) =~= le64(t.volume_real_bits));
    assert(s.subrange(64, 68) =~= le32(t.flags));
    assert(s.subrange(68, 72) =~= le32(t.reserved));
}

/// The wire layout of a frame header: magic at offset 0, protocol version
/// at 4, message type at 6, header length at 8, header flags at 10, broker
/// id at 12, session id at 16, first sequence at 24, tick count at 32 and
/// payload length at 36, all little-endian. Decoding reads each field from
/// its offset, and encoding writes each field there.
pub proof fn lemma_header_layout(b: Seq<u8>, h: Header)
    ensures
        parse_header(b).magic == at32(b, 0),
        parse_header(b).protocol_version == at16(b, 4),
        parse_header(b).message_type == at16(b, 6),
        parse_header(b).header_length == at16(b, 8),
        parse_header(b).header_flags == at16(b, 10),
        parse_header(b).broker_id == at32(b, 12),
        parse_header(b).session_id == at64(b, 16),
        parse_header(b).sequence_start == at64(b, 24),
        parse_header(b).tick_count == at32(b, 32),
        parse_header(b).payload_length == at32(b, 36),
        header_bytes(h).len() == 40,
        at32(header_bytes(h), 0) == h.magic,
        at16(header_bytes(h), 4) == h.protocol_version,
        at16(header_bytes(h), 6) == h.message_type,
        at16(header_bytes(h), 8) == h.header_length,
        at16(header_bytes(h), 10) == h.header_flags,
        at32(header_bytes(h), 12) == h.broker_id,
        at64(header_bytes(h), 16) == h.session_id,
        at64(header_bytes(h), 24) == h.sequence_start,
        at32(header_bytes(h), 32) == h.tick_count,
        at32(header_bytes(h), 36) == h.payload_length,
{
    let s = header_bytes(h);
    assert(s.subrange(0, 4) =~= le32(h.magic));
    assert(s.subrange(4, 6) =~= le16(h.protocol_version));
    assert(s.subrange(6, 8) =~= le16(h.message_type));
    assert(s.subrange(8, 10) =~= le16(h.header_length));
    assert(s.subrange(10, 12) =~= le16(h.header_flags));
    assert(s.subrange(12, 16) =~= le32(h.broker_id));
    assert(s.subrange(16, 24) =~= le64(h.session_id));
    assert(s.subrange(24, 32) =~= le64(h.sequence_start));
    assert(s.subrange(32, 36) =~= le32(h.tick_count));
    assert(s.subrange(36, 40) =~= le32(h.payload_length));
}

/// The wire layout of a tick record: eight little-endian 64-bit fields at
/// offsets 0 (sequence), 8 (broker time, two's complement), 16 (EA elapsed
/// microseconds), 24 (bid), 32 (ask), 40 (last), 48 (volume) and 56 (real
/// volume), then the flags at 64 and the reserved word at 68. Decoding reads
/// each field from its offset, and encoding writes each field there.
pub proof fn lemma_tick_record_layout(b: Seq<u8>, t: TickRecord)
    ensures
        parse_tick_record(b).sequence == at64(b, 0),
        parse_tick_record(b).broker_time_msc == at64(b, 8) as i64,
        parse_tick_record(b).ea_elapsed_us == at64(b, 16),
        parse_tick_record(b).bid_bits == at64(b, 24),
        parse_tick_record(b).ask_bits == at64(b, 32),
        parse_tick_record(b).last_bits == at64(b, 40),
        parse_tick_record(b).volume == at64(b, 48),
        parse_tick_record(b).volume_real_bits == at64(b, 56),
        parse_tick_record(b).flags == at32(b, 64),
        parse_tick_record(b).reserved == at32(b, 68),
        tick_record_bytes(t).len() == 72,
        at64(tick_record_bytes(t), 0) == t.sequence,
        at64(tick_record_bytes(t), 8) as i64 == t.broker_time_msc,
        at64(tick_record_bytes(t), 16) == t.ea_elapsed_us,
        at64(tick_record_bytes(t), 24) == t.bid_bits,
        at64(tick_record_bytes(t), 32) == t.ask_bits,
        at64(tick_record_bytes(t), 40) == t.last_bits,
        at64(tick_record_bytes(t), 48) == t.volume,
        at64(tick_record_bytes(t), 56) == t.volume_real_bits,
        at32(tick_record_bytes(t), 64) == t.flags,
        at32(tick_record_bytes(t), 68) == t.reserved,
{
    let s = tick_record_bytes(t);
    assert(s.subrange(0, 8) =~= le64(t.sequence));
    assert(s.subrange(8, 16) =~= le64(t.broker_time_msc as u64));
    assert(s.subrange(16, 24) =~= le64(t.ea_elapsed_us));
    assert(s.subrange(24, 32) =~= le64(t.bid_bits));
    assert(s.subrange(32, 40) =~= le64(t.ask_bits));
    assert(s.subrange(40, 48) =~= le64(t.last_bits));
    assert(s.subrange(48, 56) =~= le64(t.volume));
    assert(s.subrange(56, 64) =~= le64(t.volume_real_bits));
    assert(s.subrange(64, 68) =~= le32(t.flags));
    assert(s.subrange(68, 72) =~= le32(t.reserved));
}

/// Writing back the fields read from 72 bytes gives those bytes.
pub proof fn lemma_tick_record_bytes_parse(s: Seq<u8>)
    requires
        s.len() == 72,
    ensures
        tick_record_bytes(parse_tick_record(s)) == s,
{
    lemma_from_le64(s.subrange(0, 8));
    lemma_from_le64(s.subrange(8, 16));
    lemma_from_le64(s.subrange(16, 24));
    lemma_from_le64(s.subrange(24, 32));
    lemma_from_le64(s.subrange(32, 40));
    lemma_from_le64(s.subrange(40, 48));
    lemma_from_le64(s.subrange(48, 56));
    lemma_from_le64(s.subrange(56, 64));
    lemma_from_le32(s.subrange(64, 68));
    lemma_from_le32(s.subrange(68, 72));
    assert(tick_record_bytes(parse_tick_record(s)) =~= s);
}

// ---------------------------------------------------------------------
// Heartbeat
// ---------------------------------------------------------------------

/// The 36 bytes that encode a heartbeat payload.
pub open spec fn heartbeat_bytes(hb: HeartbeatPayload) -> Seq<u8> {
    le64(hb.session_id) + le64(hb.last_sequence) + le_i64(hb.last_tick_time_msc) + le_i32(
        hb.server_utc_offset_sec,
    ) + le64(hb.heartbeat_elapsed_us)
}

/// The heartbeat fields as they stand in the first 36 bytes of `s`.
pub open spec fn parse_heartbeat(s: Seq<u8>) -> HeartbeatPayload {
    HeartbeatPayload {
        session_id: at64(s, 0),
        last_sequence: at64(s, 8),
        last_tick_time_msc: at64(s, 16) as i64,
        server_utc_offset_sec: at32(s, 24) as i32,
        heartbeat_elapsed_us: at64(s, 28),
    }
}

/// The wire layout of a heartbeat: session id at offset 0, last sequence
/// at 8, last tick time at 16, server UTC offset at 24 and the EA's elapsed
/// microseconds at 28, all little-endian.
pub proof fn lemma_heartbeat_layout(b: Seq<u8>, hb: HeartbeatPayload)
    ensures
        parse_heartbeat(b).session_id == at64(b, 0),
        parse_heartbeat(b).last_sequence == at64(b, 8),
        parse_heartbeat(b).last_tick_time_msc == at64(b, 16) as i64,
        parse_heartbeat(b).server_utc_offset_sec == at32(b, 24) as i32,
        parse_heartbeat(b).heartbeat_elapsed_us == at64(b, 28),
        heartbeat_bytes(hb).len() == 36,
        at64(heartbeat_bytes(hb), 0) == hb.session_id,
        at64(heartbeat_bytes(hb), 8) == hb.last_sequence,
        at64(heartbeat_bytes(hb), 16) as i64 == hb.last_tick_time_msc,
        at32(heartbeat_bytes(hb), 24) as i32 == hb.server_utc_offset_sec,
        at64(heartbeat_bytes(hb), 28) == hb.heartbeat_elapsed_us,
{
    let s = heartbeat_bytes(hb);
    assert(s.subrange(0, 8) =~= le64(hb.session_id));
    assert(s.subrange(8, 16) =~= le64(hb.last_sequence));
    assert(s.subrange(16, 24) =~= le64(hb.last_tick_time_msc as u64));
    assert(s.subrange(24, 28) =~= le32(hb.server_utc_offset_sec as u32));
    assert(s.subrange(28, 36) =~= le64(hb.heartbeat_elapsed_us));
}

/// Decodes the heartbeat payload in the first 36 bytes of `buf`.
pub fn decode_heartbeat(buf: &[u8]) -> (r: HeartbeatPayload)
    requires
        buf@.len() >= 36,
    ensures
        r == parse_heartbeat(buf@),
{
    HeartbeatPayload {
        session_id: get_u64(buf, 0),
        last_sequence: get_u64(buf, 8),
        last_tick_time_msc: get_i64(buf, 16),
        server_utc_offset_sec: get_i32(buf, 24),
        heartbeat_elapsed_us: get_u64(buf, 28),
    }
}

/// The 36 bytes of a heartbeat payload, in a new vector.
pub fn heartbeat_to_vec(hb: &HeartbeatPayload) -> (r: Vec<u8>)
    ensures
        r@ == heartbeat_bytes(*hb),
        r@.len() == 36,
{
    let mut out: Vec<u8> = Vec::new();
    push_u64(&mut out, hb.session_id);
    push_u64(&mut out, hb.last_sequence);
    push_u64(&mut out, hb.last_tick_time_msc as u64);
    push_u32(&mut out, hb.server_utc_offset_sec as u32);
    push_u64(&mut out, hb.heartbeat_elapsed_us);
    assert(out@ =~= heartbeat_bytes(*hb));
    out
}

/// Writes the 36 bytes of `hb` at the start of `buf`.
pub fn encode_heartbeat(hb: &HeartbeatPayload, buf: &mut [u8])
    requires
        old(buf)@.len() >= 36,
    ensures
        final(buf)@ == splice(old(buf)@, 0, heartbeat_bytes(*hb)),
{
    let bytes = heartbeat_to_vec(hb);
    put_bytes(buf, 0, bytes.as_slice());
}

/// Reading back the bytes of a heartbeat gives the heartbeat.
pub proof fn lemma_parse_heartbeat_bytes(hb: HeartbeatPayload)
    ensures
        heartbeat_bytes(hb).len() == 36,
        parse_heartbeat(heartbeat_bytes(hb)) == hb,
{
    let s = heartbeat_bytes(hb);
    assert(s.subrange(0, 8) =~= le64(hb.session_id));
    assert(s.subrange(8, 16) =~= le64(hb.last_sequence));
    assert(s.subrange(16, 24) =~= le64(hb.last_tick_time_msc as u64));
    assert(s.subrange(24, 28) =~= le32(hb.server_utc_offset_sec as u32));
    assert(s.subrange(28, 36) =~= le64(hb.heartbeat_elapsed_us));
}

// ---------------------------------------------------------------------
// Batch acknowledgement
// ---------------------------------------------------------------------

/// The 8 bytes that encode a batch acknowledgement.
pub open spec fn batch_ack_bytes(ack: BatchAckPayload) -> Seq<u8> {
    le64(ack.sequence_end)
}

/// Decodes the batch acknowledgement in the first 8 bytes of `buf`.
pub fn decode_batch_ack(buf: &[u8]) -> (r: BatchAckPayload)
    requires
        buf@.len() >= 8,
    ensures
        r == (BatchAckPayload { sequence_end: at64(buf@, 0) }),
{
    BatchAckPayload { sequence_end: get_u64(buf, 0) }
}

/// Writes the 8 bytes of `ack` at the start of `buf`.
pub fn encode_batch_ack(ack: &BatchAckPayload, buf: &mut [u8])
    requires
        old(buf)@.len() >= 8,
    ensures
        final(buf)@ == splice(old(buf)@, 0, batch_ack_bytes(*ack)),
{
    let mut out: Vec<u8> = Vec::new();
    push_u64(&mut out, ack.sequence_end);
    assert(out@ =~= batch_ack_bytes(*ack));
    put_bytes(buf, 0, out.as_slice());
}

// ---------------------------------------------------------------------
// Status
// ---------------------------------------------------------------------

/// The 48 bytes that encode a status payload.
pub open spec fn status_bytes(st: StatusPayload) -> Seq<u8> {
    le16(st.status_code) + le16(st.phase) + le32(st.detail_flags) + le64(st.sequence_first) + le64(
        st.sequence_last,
    ) + le64(st.affected_count) + le64(st.ea_elapsed_us) + le_i64(st.detail_value)
}

/// The status fields as they stand in the first 48 bytes of `s`.
pub open spec fn parse_status(s: Seq<u8>) -> StatusPayload {
    StatusPayload {
        status_code: at16(s, 0),
        phase: at16(s, 2),
        detail_flags: at32(s, 4),
        sequence_first: at64(s, 8),
        sequence_last: at64(s, 16),
        affected_count: at64(s, 24),
        ea_elapsed_us: at64(s, 32),
        detail_value: at64(s, 40) as i64,
    }
}

/// The wire layout of a status payload: status code at offset 0, phase
/// at 2, detail flags at 4, first and last sequence at 8 and 16, affected
/// count at 24, the EA's elapsed microseconds at 32 and the detail value at
/// 40, all little-endian.
pub proof fn lemma_status_layout(b: Seq<u8>, st: StatusPayload)
    ensures
        parse_status(b).status_code == at16(b, 0),
        parse_status(b).phase == at16(b, 2),
        parse_status(b).detail_flags == at32(b, 4),
        parse_status(b).sequence_first == at64(b, 8),
        parse_status(b).sequence_last == at64(b, 16),
        parse_status(b).affected_count == at64(b, 24),
        parse_status(b).ea_elapsed_us == at64(b, 32),
        parse_status(b).detail_value == at64(b, 40) as i64,
        status_bytes(st).len() == 48,
        at16(status_bytes(st), 0) == st.status_code,
        at16(status_bytes(st), 2) == st.phase,
        at32(status_bytes(st), 4) == st.detail_flags,
        at64(status_bytes(st), 8) == st.sequence_first,
        at64(status_bytes(st), 16) == st.sequence_last,
        at64(status_bytes(st), 24) == st.affected_count,
        at64(status_bytes(st), 32) == st.ea_elapsed_us,
        at64(status_bytes(st), 40) as i64 == st.detail_value,
{
    let s = status_bytes(st);
    assert(s.subrange(0, 2) =~= le16(st.status_code));
    assert(s.subrange(2, 4) =~= le16(st.phase));
    assert(s.subrange(4, 8) =~= le32(st.detail_flags));
    assert(s.subrange(8, 16) =~= le64(st.sequence_first));
    assert(s.subrange(16, 24) =~= le64(st.sequence_last));
    assert(s.subrange(24, 32) =~= le64(st.affected_count));
    assert(s.subrange(32, 40) =~= le64(st.ea_elapsed_us));
    assert(s.subrange(40, 48) =~= le64(st.detail_value as u64));
}

/// Only the two defined detail bits may be set.
pub open spec fn status_flags_known(flags: u32) -> bool {
    flags & !(STATUS_FLAG_HAS_SEQUENCE_RANGE | STATUS_FLAG_HAS_EXACT_COUNT) == 0
}

/// A declared sequence range runs forwards.
pub open spec fn status_range_ordered(st: StatusPayload) -> bool {
    st.detail_flags & STATUS_FLAG_HAS_SEQUENCE_RANGE != 0 ==> st.sequence_first <= st.sequence_last
}

pub open spec fn msg_status_flags(flags: u32) -> Seq<char> {
    "Invalid status detail flags: 0x"@ + zero_pad(hex(flags as nat), 8)
}

pub open spec fn msg_status_range(first: u64, last: u64) -> Seq<char> {
    "Status sequence_first ("@ + dec(first as nat) + ") > sequence_last ("@ + dec(last as nat)
        + ")"@
}

/// The status payload passes both checks.
pub open spec fn status_acceptable(st: StatusPayload) -> bool {
    status_flags_known(st.detail_flags) && status_range_ordered(st)
}

/// What validating the status payload `st` yields.
pub open spec fn status_outcome(st: StatusPayload, r: Result<StatusPayload, ProtocolError>) -> bool {
    if !status_flags_known(st.detail_flags) {
        r is Err && is_malformed(r->Err_0, msg_status_flags(st.detail_flags))
    } else if !status_range_ordered(st) {
        r is Err && is_malformed(r->Err_0, msg_status_range(st.sequence_first, st.sequence_last))
    } else {
        r == Ok::<StatusPayload, ProtocolError>(st)
    }
}

/// Decodes and validates the status payload in the first 48 bytes of `buf`.
pub fn decode_status(buf: &[u8]) -> (r: Result<StatusPayload, ProtocolError>)
    requires
        buf@.len() >= 48,
    ensures
        status_outcome(parse_status(buf@), r),
{
    let status_code = get_u16(buf, 0);
    let phase = get_u16(buf, 2);
    let detail_flags = get_u32(buf, 4);
    let sequence_first = get_u64(buf, 8);
    let sequence_last = get_u64(buf, 16);
    let affected_count = get_u64(buf, 24);
    let ea_elapsed_us = get_u64(buf, 32);
    let detail_value = get_i64(buf, 40);
    if (detail_flags & !(STATUS_FLAG_HAS_SEQUENCE_RANGE | STATUS_FLAG_HAS_EXACT_COUNT)) != 0 {
        let mut m = string_of("Invalid status detail flags: 0x");
        push_hex_padded(&mut m, detail_flags as u64, 8);
        return Err(ProtocolError::MalformedPayload(m));
    }
    if (detail_flags & STATUS_FLAG_HAS_SEQUENCE_RANGE) != 0 && sequence_first > sequence_last {
        let mut m = string_of("Status sequence_first (");
        push_dec(&mut m, sequence_first);
        push_str(&mut m, ") > sequence_last (");
        push_dec(&mut m, sequence_last);
        push_str(&mut m, ")");
        return Err(ProtocolError::MalformedPayload(m));
    }
    Ok(
        StatusPayload {
            status_code,
            phase,
            detail_flags,
            sequence_first,
            sequence_last,
            affected_count,
            ea_elapsed_us,
            detail_value,
        },
    )
}

/// The 48 bytes of a status payload, in a new vector.
pub fn status_to_vec(st: &StatusPayload) -> (r: Vec<u8>)
    ensures
        r@ == status_bytes(*st),
        r@.len() == 48,
{
    let mut out: Vec<u8> = Vec::new();
    push_u16(&mut out, st.status_code);
    push_u16(&mut out, st.phase);
    push_u32(&mut out, st.detail_flags);
    push_u64(&mut out, st.sequence_first);
    push_u64(&mut out, st.sequence_last);
    push_u64(&mut out, st.affected_count);
    push_u64(&mut out, st.ea_elapsed_us);
    push_u64(&mut out, st.detail_value as u64);
    assert(out@ =~= status_bytes(*st));
    out
}

/// Writes the 48 bytes of `status` at the start of `buf`.
pub fn encode_status(status: &StatusPayload, buf: &mut [u8])
    requires
        old(buf)@.len() >= 48,
    ensures
        final(buf)@ == splice(old(buf)@, 0, status_bytes(*status)),
{
    let bytes = status_to_vec(status);
    put_bytes(buf, 0, bytes.as_slice());
}

/// Reading back the bytes of a status payload gives the payload.
pub proof fn lemma_parse_status_bytes(st: StatusPayload)
    ensures
        status_bytes(st).len() == 48,
        parse_status(status_bytes(st)) == st,
{
    let s = status_bytes(st);
    assert(s.subrange(0, 2) =~= le16(st.status_code));
    assert(s.subrange(2, 4) =~= le16(st.phase));
    assert(s.subrange(4, 8) =~= le32(st.detail_flags));
    assert(s.subrange(8, 16) =~= le64(st.sequence_first));
    assert(s.subrange(16, 24) =~= le64(st.sequence_last));
    assert(s.subrange(24, 32) =~= le64(st.affected_count));
    assert(s.subrange(32, 40) =~= le64(st.ea_elapsed_us));
    assert(s.subrange(40, 48) =~= le64(st.detail_value as u64));
}

} // verus!
