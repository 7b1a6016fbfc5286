//! What a broker connection does with each decoded frame: the frame as
//! received, the raw record logged for it, and the batch acknowledgement.

use crate::contracts::types::{
    BatchAckPayload, BrokerId, ClockReading, Frame, FramePayload, Header, LogRawFrame, LogRecord,
    ReceivedFrame, SessionId, BATCH_ACK_PAYLOAD_LENGTH, HEADER_LENGTH, MAGIC_TICK,
    MSG_TYPE_BATCH_ACK, MSG_TYPE_TICK_BATCH, PROTOCOL_VERSION,
};
use crate::protocol::codec::{frame_well_formed, DecodedFrame};
use crate::text::chars_eq;
use std::sync::Arc;
use vstd::prelude::*;

verus! {

/// Calls `Arc::clone`, which hands out another pointer to the same
/// allocation. Claimed: the clone holds the same bytes.
#[verifier::external_body]
fn share_bytes(a: &Arc<Vec<u8>>) -> (r: Arc<Vec<u8>>)
    ensures
        r@ == a@,
{
    Arc::clone(a)
}

/// Whether a frame of `message_type` is acknowledged under `ack_mode`:
/// tick batches are, unless acknowledgement is off.
pub fn should_ack(ack_mode: &str, message_type: u16) -> (r: bool)
    ensures
        r == (ack_mode@ != "off"@ && message_type == MSG_TYPE_TICK_BATCH),
{
    let v = crate::text::chars_of(ack_mode);
    !chars_eq(v.as_slice(), "off") && message_type == MSG_TYPE_TICK_BATCH
}

/// The last sequence of a tick batch: its first plus its count, less one.
pub fn batch_ack_sequence_end(header: &Header) -> (r: u64)
    requires
        header.tick_count >= 1,
        header.sequence_start + header.tick_count <= u64::MAX,
    ensures
        r == header.sequence_start + header.tick_count - 1,
{
    header.sequence_start + header.tick_count as u64 - 1
}

/// The acknowledgement of a batch of `session_id` ending at `seq_end`.
pub fn batch_ack_frame(broker_id: BrokerId, session_id: SessionId, seq_end: u64) -> (r: Frame)
    ensures
        r.header == (Header {
            magic: MAGIC_TICK,
            protocol_version: PROTOCOL_VERSION,
            message_type: MSG_TYPE_BATCH_ACK,
            header_length: HEADER_LENGTH,
            header_flags: 0,
            broker_id,
            session_id,
            sequence_start: 0,
            tick_count: 0,
            payload_length: BATCH_ACK_PAYLOAD_LENGTH as u32,
        }),
        r.payload == FramePayload::BatchAck(BatchAckPayload { sequence_end: seq_end }),
        frame_well_formed(r),
{
    Frame {
        header: Header {
            magic: MAGIC_TICK,
            protocol_version: PROTOCOL_VERSION,
            message_type: MSG_TYPE_BATCH_ACK,
            header_length: HEADER_LENGTH,
            header_flags: 0,
            broker_id,
            session_id,
            sequence_start: 0,
            tick_count: 0,
            payload_length: BATCH_ACK_PAYLOAD_LENGTH as u32,
        },
        payload: FramePayload::BatchAck(BatchAckPayload { sequence_end: seq_end }),
    }
}

/// A decoded frame as received on the connection of `broker_id`: the
/// header's broker id replaced by the connection's, stamped with the clock
/// reading, generation and per-connection index.
pub fn received_frame(decoded: DecodedFrame, broker_id: BrokerId, reading: ClockReading, generation: u64, frame_index: u64) -> (r: ReceivedFrame)
    ensures
        r.frame.header == (Header { broker_id, ..decoded.frame.header }),
        r.frame.payload == decoded.frame.payload,
        r.raw_wire_bytes == decoded.raw_wire_bytes,
        r.run_id == reading.run_id,
        r.rx_mono_ns == reading.mono_ns,
        r.rx_unix_ns == reading.unix_ns,
        r.connection_generation == generation,
        r.frame_index == frame_index,
{
    let DecodedFrame { frame, raw_wire_bytes, .. } = decoded;
    let Frame { header, payload } = frame;
    ReceivedFrame {
        frame: Frame { header: Header { broker_id, ..header }, payload },
        raw_wire_bytes,
        run_id: reading.run_id,
        rx_mono_ns: reading.mono_ns,
        rx_unix_ns: reading.unix_ns,
        connection_generation: generation,
        frame_index,
    }
}

/// The raw-frame log record of a received frame; dispositions are left to
/// replay, which recomputes them.
pub fn raw_frame_record(frame: &ReceivedFrame) -> (r: LogRecord)
    ensures
        r matches LogRecord::RawFrame(raw) && raw.broker_id == frame.frame.header.broker_id
            && raw.connection_generation == frame.connection_generation && raw.frame_index
            == frame.frame_index && raw.rx_mono_ns == frame.rx_mono_ns && raw.rx_unix_ns
            == frame.rx_unix_ns && raw.config_epoch == 1 && raw.analysis_segment == 1
            && raw.raw_wire_bytes@ == frame.raw_wire_bytes@ && raw.dispositions@.len() == 0,
{
    LogRecord::RawFrame(
        LogRawFrame {
            broker_id: frame.frame.header.broker_id,
            connection_generation: frame.connection_generation,
            frame_index: frame.frame_index,
            rx_mono_ns: frame.rx_mono_ns,
            rx_unix_ns: frame.rx_unix_ns,
            config_epoch: 1,
            analysis_segment: 1,
            raw_wire_bytes: share_bytes(&frame.raw_wire_bytes),
            dispositions: Vec::new(),
        },
    )
}

} // verus!
