//! Whole frames: encoding a frame to bytes, and a streaming decoder that
//! cuts frames out of a growing byte buffer.

use crate::contracts::le_bytes::{
    at32, at64, get_u32, group_le_bytes, le64, lemma_at32_is_le32, lemma_le32_bytes,
};
use crate::contracts::types::{
    BatchAckPayload, Frame, FramePayload, Header, TickRecord, BATCH_ACK_PAYLOAD_LENGTH,
    HEADER_LENGTH, HEARTBEAT_PAYLOAD_LENGTH, MAGIC_TICK, MSG_TYPE_BATCH_ACK, MSG_TYPE_HEARTBEAT,
    MSG_TYPE_STATUS, MSG_TYPE_TICK_BATCH, STATUS_PAYLOAD_LENGTH, TICK_RECORD_LENGTH,
};
use crate::protocol::packet::{
    batch_ack_bytes, decode_batch_ack, decode_header, decode_heartbeat, decode_status,
    decode_tick_record, header_bytes, header_outcome, header_to_vec, header_valid,
    heartbeat_bytes, heartbeat_to_vec, lemma_header_outcome_ok, lemma_parse_header_bytes,
    lemma_parse_header_prefix, lemma_parse_heartbeat_bytes, lemma_parse_status_bytes,
    lemma_parse_tick_record_bytes, parse_header, parse_heartbeat, parse_status,
    parse_tick_record, reserved_warning, status_acceptable, status_bytes, status_outcome,
    status_to_vec, tick_record_bytes, tick_record_to_vec, ProtocolError,
};
use std::sync::Arc;
use vstd::prelude::*;
use vstd::slice::slice_subrange;

verus! {

broadcast use group_le_bytes;

/// One frame cut from the stream: the decoded frame, the exact bytes it
/// occupied on the wire, and the warnings raised while decoding it.
#[derive(Debug, Clone, PartialEq)]
pub struct DecodedFrame {
    pub frame: Frame,
    pub raw_wire_bytes: Arc<Vec<u8>>,
    pub warnings: Vec<String>,
}

// ---------------------------------------------------------------------
// Byte images of frames
// ---------------------------------------------------------------------

/// The tick records of a batch, 72 bytes each, one after the other.
pub open spec fn ticks_bytes(ts: Seq<TickRecord>) -> Seq<u8>
    decreases ts.len(),
{
    if ts.len() == 0 {
        Seq::empty()
    } else {
        ticks_bytes(ts.drop_last()) + tick_record_bytes(ts.last())
    }
}

/// The payload bytes of a frame.
pub open spec fn payload_bytes(p: FramePayload) -> Seq<u8> {
    match p {
        FramePayload::TickBatch(ts) => ticks_bytes(ts@),
        FramePayload::Heartbeat(hb) => heartbeat_bytes(hb),
        FramePayload::BatchAck(ack) => batch_ack_bytes(ack),
        FramePayload::Status(st) => status_bytes(st),
    }
}

/// The bytes of a whole frame: its header, then its payload.
pub open spec fn frame_bytes(f: Frame) -> Seq<u8> {
    header_bytes(f.header) + payload_bytes(f.payload)
}

/// A payload whose byte length does not fit in memory.
pub open spec fn encoded_len_overflows(p: FramePayload) -> bool {
    match p {
        FramePayload::TickBatch(ts) => HEADER_LENGTH + ts@.len() * TICK_RECORD_LENGTH > usize::MAX,
        _ => false,
    }
}

/// The `n` tick records laid out from the start of `p`.
pub open spec fn parse_ticks(p: Seq<u8>, n: nat) -> Seq<TickRecord> {
    Seq::new(n, |i: int| parse_tick_record(p.subrange(i * 72, i * 72 + 72)))
}

/// The warnings raised for a batch: one per record with a non-zero
/// reserved field, in record order.
pub open spec fn tick_warnings(ts: Seq<TickRecord>) -> Seq<Seq<char>>
    decreases ts.len(),
{
    if ts.len() == 0 {
        Seq::empty()
    } else {
        let w = tick_warnings(ts.drop_last());
        if ts.last().reserved != 0 {
            w.push(reserved_warning(ts.last().sequence, ts.last().reserved))
        } else {
            w
        }
    }
}

/// The texts of a sequence of strings.
pub open spec fn texts(ws: Seq<String>) -> Seq<Seq<char>> {
    ws.map_values(|w: String| w@)
}

/// The warnings raised while decoding the frame `f`.
pub open spec fn frame_warnings(f: Frame) -> Seq<Seq<char>> {
    match f.payload {
        FramePayload::TickBatch(ts) => tick_warnings(ts@),
        _ => Seq::empty(),
    }
}

/// `a` and `b` carry the same payload.
pub open spec fn same_payload(a: FramePayload, b: FramePayload) -> bool {
    match a {
        FramePayload::TickBatch(x) => b matches FramePayload::TickBatch(y) && x@ == y@,
        _ => a == b,
    }
}

/// `a` and `b` are the same frame.
pub open spec fn same_frame(a: Frame, b: Frame) -> bool {
    a.header == b.header && same_payload(a.payload, b.payload)
}

/// The frame a sender may put on the wire: a valid header, and a payload
/// of the kind and size the header announces that passes its own checks.
pub open spec fn frame_well_formed(f: Frame) -> bool {
    &&& header_valid(f.header)
    &&& match f.payload {
        FramePayload::TickBatch(ts) => f.header.message_type == MSG_TYPE_TICK_BATCH
            && ts@.len() == f.header.tick_count,
        FramePayload::Heartbeat(_) => f.header.message_type == MSG_TYPE_HEARTBEAT,
        FramePayload::BatchAck(_) => f.header.message_type == MSG_TYPE_BATCH_ACK,
        FramePayload::Status(st) => f.header.message_type == MSG_TYPE_STATUS && status_acceptable(
            st,
        ),
    }
}

// ---------------------------------------------------------------------
// Decoding
// ---------------------------------------------------------------------

/// `payload` and `warnings` are what the payload bytes `p` decode to under
/// the valid header `h`.
pub open spec fn payload_decodes(
    h: Header,
    p: Seq<u8>,
    payload: FramePayload,
    warnings: Seq<String>,
) -> bool {
    if h.message_type == MSG_TYPE_TICK_BATCH {
        &&& payload matches FramePayload::TickBatch(ts)
        &&& ts@ == parse_ticks(p, h.tick_count as nat)
        &&& texts(warnings) == tick_warnings(ts@)
    } else {
        &&& warnings.len() == 0
        &&& if h.message_type == MSG_TYPE_HEARTBEAT {
            payload == FramePayload::Heartbeat(parse_heartbeat(p))
        } else if h.message_type == MSG_TYPE_BATCH_ACK {
            payload == FramePayload::BatchAck(BatchAckPayload { sequence_end: at64(p, 0) })
        } else {
            payload == FramePayload::Status(parse_status(p))
        }
    }
}

/// What one call of `next_frame` does to a buffer holding `buf`: it leaves
/// `after` in the buffer and returns `r`.
pub open spec fn next_frame_outcome(
    buf: Seq<u8>,
    after: Seq<u8>,
    r: Result<Option<DecodedFrame>, ProtocolError>,
) -> bool {
    if buf.len() < HEADER_LENGTH {
        r matches Ok(None) && after == buf
    } else {
        let h = parse_header(buf);
        let total = HEADER_LENGTH + h.payload_length;
        let p = buf.subrange(HEADER_LENGTH as int, total);
        if !header_valid(h) {
            r is Err && header_outcome(h, Err(r->Err_0)) && after == buf
        } else if buf.len() < total {
            r matches Ok(None) && after == buf
        } else if h.message_type == MSG_TYPE_STATUS && !status_acceptable(parse_status(p)) {
            r is Err && status_outcome(parse_status(p), Err(r->Err_0)) && after == buf
        } else {
            &&& r matches Ok(Some(d))
            &&& d.frame.header == h
            &&& payload_decodes(h, p, d.frame.payload, d.warnings@)
            &&& d.raw_wire_bytes@ == buf.subrange(0, total)
            &&& after == buf.subrange(total, buf.len() as int)
        }
    }
}

/// A stream of frames seen through its leading bytes: `i` is the first
/// offset from 1 on where the frame magic begins.
pub open spec fn magic_at(buf: Seq<u8>, i: int) -> bool {
    i + 4 <= buf.len() && at32(buf, i) == MAGIC_TICK
}

/// What `try_resync` does to a buffer holding `buf`, with the given
/// look-ahead: it leaves `after` and reports `r`.
pub open spec fn resync_outcome(buf: Seq<u8>, resync_limit: nat, after: Seq<u8>, r: bool) -> bool {
    let limit = if resync_limit < buf.len() {
        resync_limit as int
    } else {
        buf.len() as int
    };
    if r {
        exists|i: int|
            1 <= i < limit && #[trigger] magic_at(buf, i) && (forall|j: int|
                1 <= j < i ==> !#[trigger] magic_at(buf, j)) && after == buf.subrange(
                i,
                buf.len() as int,
            )
    } else {
        (forall|j: int| 1 <= j < limit ==> !#[trigger] magic_at(buf, j)) && after == buf
    }
}

/// The frame magic as it stands on the wire: the bytes `K`, `C`, `I`, `T`.
pub open spec fn magic_bytes() -> Seq<u8> {
    seq![0x4Bu8, 0x43u8, 0x49u8, 0x54u8]
}

/// The four bytes from offset `i` on are the frame magic.
pub open spec fn magic_bytes_at(buf: Seq<u8>, i: int) -> bool {
    i + 4 <= buf.len() && buf.subrange(i, i + 4) == magic_bytes()
}

/// `resync_outcome`, written over the magic's bytes.
pub open spec fn resync_outcome_bytes(
    buf: Seq<u8>,
    resync_limit: nat,
    after: Seq<u8>,
    r: bool,
) -> bool {
    let limit = if resync_limit < buf.len() {
        resync_limit as int
    } else {
        buf.len() as int
    };
    if r {
        exists|i: int|
            1 <= i < limit && #[trigger] magic_bytes_at(buf, i) && (forall|j: int|
                1 <= j < i ==> !#[trigger] magic_bytes_at(buf, j)) && after == buf.subrange(
                i,
                buf.len() as int,
            )
    } else {
        (forall|j: int| 1 <= j < limit ==> !#[trigger] magic_bytes_at(buf, j)) && after == buf
    }
}

/// The magic test at an offset is the test for the bytes `K`, `C`, `I`, `T`.
pub proof fn lemma_magic_at_bytes(buf: Seq<u8>, i: int)
    requires
        0 <= i,
    ensures
        magic_at(buf, i) <==> magic_bytes_at(buf, i),
{
    assert(MAGIC_TICK == 0x5449434Bu32);
    lemma_le32_bytes(0x5449434Bu32);
    let m: u32 = 0x5449434Bu32;
    assert((m & 0xff) as u8 == 0x4Bu8 && ((m >> 8) & 0xff) as u8 == 0x43u8 && ((m >> 16) & 0xff) as u8
        == 0x49u8 && ((m >> 24) & 0xff) as u8 == 0x54u8) by (bit_vector)
        requires
            m == 0x5449434Bu32,
    ;
    if i + 4 <= buf.len() {
        lemma_at32_is_le32(buf, i, MAGIC_TICK);
    }
}

/// Resynchronisation skips to the first offset, from 1 up to the limit,
/// where the bytes `K`, `C`, `I`, `T` begin, and leaves the buffer alone
/// where there is none.
pub proof fn lemma_resync_by_bytes(buf: Seq<u8>, resync_limit: nat, after: Seq<u8>, r: bool)
    ensures
        resync_outcome(buf, resync_limit, after, r) <==> resync_outcome_bytes(
            buf,
            resync_limit,
            after,
            r,
        ),
{
    assert forall|i: int| 0 <= i implies #[trigger] magic_at(buf, i) == magic_bytes_at(buf, i) by {
        lemma_magic_at_bytes(buf, i);
    }
    let limit = if resync_limit < buf.len() {
        resync_limit as int
    } else {
        buf.len() as int
    };
    if r {
        if resync_outcome(buf, resync_limit, after, r) {
            let i = choose|i: int|
                1 <= i < limit && #[trigger] magic_at(buf, i) && (forall|j: int|
                    1 <= j < i ==> !#[trigger] magic_at(buf, j)) && after == buf.subrange(
                    i,
                    buf.len() as int,
                );
            assert(magic_bytes_at(buf, i));
            assert forall|j: int| 1 <= j < i implies !#[trigger] magic_bytes_at(buf, j) by {
                assert(!magic_at(buf, j));
            }
        }
        if resync_outcome_bytes(buf, resync_limit, after, r) {
            let i = choose|i: int|
                1 <= i < limit && #[trigger] magic_bytes_at(buf, i) && (forall|j: int|
                    1 <= j < i ==> !#[trigger] magic_bytes_at(buf, j)) && after == buf.subrange(
                    i,
                    buf.len() as int,
                );
            assert(magic_at(buf, i));
            assert forall|j: int| 1 <= j < i implies !#[trigger] magic_at(buf, j) by {
                assert(!magic_bytes_at(buf, j));
            }
        }
    } else {
        if forall|j: int| 1 <= j < limit ==> !#[trigger] magic_at(buf, j) {
            assert forall|j: int| 1 <= j < limit implies !#[trigger] magic_bytes_at(buf, j) by {
                assert(!magic_at(buf, j));
            }
        }
        if forall|j: int| 1 <= j < limit ==> !#[trigger] magic_bytes_at(buf, j) {
            assert forall|j: int| 1 <= j < limit implies !#[trigger] magic_at(buf, j) by {
                assert(!magic_bytes_at(buf, j));
            }
        }
    }
}

/// Cuts frames out of a byte stream that arrives in pieces.
pub struct StreamingDecoder {
    buffer: Vec<u8>,
    max_payload_length: usize,
    debug_resync_limit: usize,
}

impl View for StreamingDecoder {
    type V = Seq<u8>;

    /// The bytes received and not yet cut into frames.
    closed spec fn view(&self) -> Seq<u8> {
        self.buffer@
    }
}

impl StreamingDecoder {
    /// The payload length the decoder was configured for.
    pub closed spec fn max_payload(&self) -> nat {
        self.max_payload_length as nat
    }

    /// How far ahead a resynchronisation may look.
    pub closed spec fn resync_limit(&self) -> nat {
        self.debug_resync_limit as nat
    }

    /// An empty decoder.
    pub fn new(max_payload_length: usize, debug_resync_limit: usize) -> (r: Self)
        ensures
            r@ == Seq::<u8>::empty(),
            r.max_payload() == max_payload_length,
            r.resync_limit() == debug_resync_limit,
    {
        StreamingDecoder {
            buffer: Vec::with_capacity(8192),
            max_payload_length,
            debug_resync_limit,
        }
    }

    /// How many bytes wait in the buffer.
    pub fn buffer_len(&self) -> (r: usize)
        ensures
            r == self@.len(),
    {
        self.buffer.len()
    }

    /// Appends `data` to the buffer, unless the buffer would then hold more
    /// than two maximal frames.
    pub fn push(&mut self, data: &[u8]) -> (r: Result<usize, ProtocolError>)
        requires
            old(self)@.len() + data@.len() <= usize::MAX,
            old(self).max_payload() + HEADER_LENGTH > usize::MAX || 2 * (old(self).max_payload()
                + HEADER_LENGTH) <= usize::MAX,
        ensures
            final(self).max_payload() == old(self).max_payload(),
            final(self).resync_limit() == old(self).resync_limit(),
            ({
                let max_total = old(self).max_payload() + HEADER_LENGTH;
                let sum = old(self)@.len() + data@.len();
                if max_total > usize::MAX {
                    r == Err::<usize, ProtocolError>(ProtocolError::ArithmeticOverflow)
                        && final(self)@ == old(self)@
                } else if sum > 2 * max_total {
                    r == Err::<usize, ProtocolError>(
                        ProtocolError::PayloadLengthExceedsMax(sum as u32),
                    ) && final(self)@ == old(self)@
                } else {
                    r == Ok::<usize, ProtocolError>(data@.len() as usize) && final(self)@ == old(
                        self,
                    )@ + data@
                }
            }),
    {
        let max_total = match (HEADER_LENGTH as usize).checked_add(self.max_payload_length) {
            Some(t) => t,
            None => {
                return Err(ProtocolError::ArithmeticOverflow);
            },
        };
        let sum = self.buffer.len() + data.len();
        if sum > max_total * 2 {
            return Err(ProtocolError::PayloadLengthExceedsMax(sum as u32));
        }
        self.buffer.extend_from_slice(data);
        Ok(data.len())
    }

    /// Cuts the next whole frame from the front of the buffer.
    ///
    /// Returns `Ok(None)` while the buffer holds less than a whole frame.
    /// A frame whose header or status payload is refused stays in the
    /// buffer, and the error is returned.
    pub fn next_frame(&mut self) -> (r: Result<Option<DecodedFrame>, ProtocolError>)
        ensures
            final(self).max_payload() == old(self).max_payload(),
            final(self).resync_limit() == old(self).resync_limit(),
            next_frame_outcome(old(self)@, final(self)@, r),
    {
        let n = self.buffer.len();
        if n < HEADER_LENGTH as usize {
            return Ok(None);
        }
        let header = match decode_header(self.buffer.as_slice()) {
            Ok(hdr) => hdr,
            Err(ProtocolError::NeedMore { .. }) => {
                return Ok(None);
            },
            Err(e) => {
                proof {
                    lemma_header_outcome_ok(parse_header(self.buffer@), Err(e));
                }
                return Err(e);
            },
        };
        proof {
            lemma_header_outcome_ok(parse_header(self.buffer@), Ok(header));
        }
        let total_frame_len = match (HEADER_LENGTH as usize).checked_add(
            header.payload_length as usize,
        ) {
            Some(t) => t,
            None => {
                return Err(ProtocolError::ArithmeticOverflow);
            },
        };
        if n < total_frame_len {
            return Ok(None);
        }
        let ghost buf = self.buffer@;
        let ghost p = buf.subrange(HEADER_LENGTH as int, total_frame_len as int);
        let bytes = self.buffer.as_slice();
        let payload_slice = slice_subrange(bytes, HEADER_LENGTH as usize, total_frame_len);
        assert(payload_slice@ == p);
        let mut warnings: Vec<String> = Vec::new();
        let payload = if header.message_type == MSG_TYPE_TICK_BATCH {
            let count = header.tick_count as usize;
            let mut ticks: Vec<TickRecord> = Vec::new();
            let mut i: usize = 0;
            let _plen = payload_slice.len();
            while i < count
                invariant
                    count == header.tick_count,
                    count * 72 <= usize::MAX,
                    payload_slice@ == p,
                    p.len() == count * 72,
                    i <= count,
                    ticks@ == parse_ticks(p, i as nat),
                    texts(warnings@) == tick_warnings(ticks@),
                decreases count - i,
            {
                let offset = i * TICK_RECORD_LENGTH;
                let rec = slice_subrange(payload_slice, offset, offset + TICK_RECORD_LENGTH);
                let (tick, warn) = decode_tick_record(rec);
                let ghost old_ticks = ticks@;
                let ghost old_warnings = warnings@;
                match warn {
                    Some(w) => {
                        warnings.push(w);
                    },
                    None => {},
                }
                ticks.push(tick);
                proof {
                    assert(ticks@.drop_last() == old_ticks);
                    assert(ticks@ =~= parse_ticks(p, (i + 1) as nat));
                    if tick.reserved != 0 {
                        assert(texts(warnings@) =~= texts(old_warnings).push(
                            reserved_warning(tick.sequence, tick.reserved),
                        ));
                    } else {
                        assert(warnings@ == old_warnings);
                    }
                }
                i = i + 1;
            }
            FramePayload::TickBatch(ticks)
        } else if header.message_type == MSG_TYPE_HEARTBEAT {
            FramePayload::Heartbeat(decode_heartbeat(payload_slice))
        } else if header.message_type == MSG_TYPE_BATCH_ACK {
            FramePayload::BatchAck(decode_batch_ack(payload_slice))
        } else if header.message_type == MSG_TYPE_STATUS {
            match decode_status(payload_slice) {
                Ok(st) => FramePayload::Status(st),
                Err(e) => {
                    return Err(e);
                },
            }
        } else {
            return Err(ProtocolError::UnknownMessageType(header.message_type));
        };
        assert(texts(warnings@).len() == warnings@.len());
        let mut frame_bytes = self.buffer.split_off(total_frame_len);
        std::mem::swap(&mut frame_bytes, &mut self.buffer);
        Ok(
            Some(
                DecodedFrame {
                    frame: Frame { header, payload },
                    raw_wire_bytes: Arc::new(frame_bytes),
                    warnings,
                },
            ),
        )
    }

    /// Drops leading bytes up to the next occurrence of the frame magic,
    /// looking at offsets 1 up to the resynchronisation limit; reports
    /// whether one was found.
    pub fn try_resync(&mut self) -> (r: bool)
        ensures
            final(self).max_payload() == old(self).max_payload(),
            final(self).resync_limit() == old(self).resync_limit(),
            resync_outcome(old(self)@, old(self).resync_limit(), final(self)@, r),
    {
        let len = self.buffer.len();
        let limit = if self.debug_resync_limit < len {
            self.debug_resync_limit
        } else {
            len
        };
        let ghost buf = self.buffer@;
        let mut i: usize = 1;
        while i < limit
            invariant
                1 <= i,
                limit == (if self.debug_resync_limit < len {
                    self.debug_resync_limit
                } else {
                    len
                }),
                len == buf.len(),
                buf == old(self)@,
                self.buffer@ == buf,
                self.max_payload_length == old(self).max_payload_length,
                self.debug_resync_limit == old(self).debug_resync_limit,
                forall|j: int| 1 <= j < i ==> !#[trigger] magic_at(buf, j),
            decreases limit - i,
        {
            if len - i >= 4 {
                let magic = get_u32(self.buffer.as_slice(), i);
                if magic == MAGIC_TICK {
                    assert(magic_at(buf, i as int));
                    let tail = self.buffer.split_off(i);
                    self.buffer = tail;
                    assert(self@ == buf.subrange(i as int, buf.len() as int));
                    return true;
                }
            }
            i = i + 1;
        }
        false
    }
}

/// Encodes a frame: its header as given, then its payload.
pub fn encode_frame(frame: &Frame) -> (r: Result<Vec<u8>, ProtocolError>)
    ensures
        r is Err <==> encoded_len_overflows(frame.payload),
        r matches Err(e) ==> e == ProtocolError::ArithmeticOverflow,
        r matches Ok(bytes) ==> bytes@ == frame_bytes(*frame),
{
    let payload_len = match &frame.payload {
        FramePayload::TickBatch(ticks) => match ticks.len().checked_mul(TICK_RECORD_LENGTH) {
            Some(v) => v,
            None => {
                return Err(ProtocolError::ArithmeticOverflow);
            },
        },
        FramePayload::Heartbeat(_) => HEARTBEAT_PAYLOAD_LENGTH,
        FramePayload::BatchAck(_) => BATCH_ACK_PAYLOAD_LENGTH,
        FramePayload::Status(_) => STATUS_PAYLOAD_LENGTH,
    };
    let _total_len = match (HEADER_LENGTH as usize).checked_add(payload_len) {
        Some(t) => t,
        None => {
            return Err(ProtocolError::ArithmeticOverflow);
        },
    };
    let mut out = header_to_vec(&frame.header);
    match &frame.payload {
        FramePayload::TickBatch(ticks) => {
            let mut i: usize = 0;
            while i < ticks.len()
                invariant
                    i <= ticks@.len(),
                    out@ == header_bytes(frame.header) + ticks_bytes(ticks@.take(i as int)),
                decreases ticks@.len() - i,
            {
                let b = tick_record_to_vec(&ticks[i]);
                out.extend_from_slice(b.as_slice());
                proof {
                    assert(ticks@.take(i + 1).drop_last() =~= ticks@.take(i as int));
                    assert(header_bytes(frame.header) + ticks_bytes(ticks@.take(i + 1)) =~= (
                    header_bytes(frame.header) + ticks_bytes(ticks@.take(i as int))) + b@);
                }
                i = i + 1;
            }
            assert(ticks@.take(i as int) =~= ticks@);
        },
        FramePayload::Heartbeat(hb) => {
            let b = heartbeat_to_vec(hb);
            out.extend_from_slice(b.as_slice());
        },
        FramePayload::BatchAck(ack) => {
            let mut b: Vec<u8> = Vec::new();
            crate::contracts::le_bytes::push_u64(&mut b, ack.sequence_end);
            out.extend_from_slice(b.as_slice());
        },
        FramePayload::Status(st) => {
            let b = status_to_vec(st);
            out.extend_from_slice(b.as_slice());
        },
    }
    Ok(out)
}

// ---------------------------------------------------------------------
// Laws
// ---------------------------------------------------------------------

/// The bytes of a batch are 72 per record, and record `i` stands at
/// offset `72 * i`.
pub proof fn lemma_ticks_bytes(ts: Seq<TickRecord>)
    ensures
        ticks_bytes(ts).len() == 72 * ts.len(),
        forall|i: int|
            0 <= i < ts.len() ==> #[trigger] ticks_bytes(ts).subrange(i * 72, i * 72 + 72)
                == tick_record_bytes(ts[i]),
    decreases ts.len(),
{
    if ts.len() > 0 {
        let init = ts.drop_last();
        lemma_ticks_bytes(init);
        lemma_parse_tick_record_bytes(ts.last());
        let a = ticks_bytes(init);
        let b = tick_record_bytes(ts.last());
        assert forall|i: int| 0 <= i < ts.len() implies #[trigger] ticks_bytes(ts).subrange(
            i * 72,
            i * 72 + 72,
        ) == tick_record_bytes(ts[i]) by {
            if i < ts.len() - 1 {
                assert((a + b).subrange(i * 72, i * 72 + 72) =~= a.subrange(i * 72, i * 72 + 72));
                assert(init[i] == ts[i]);
            } else {
                assert((a + b).subrange(i * 72, i * 72 + 72) =~= b);
            }
        }
    }
}

/// Decoding the records of an encoded batch gives the batch back.
pub proof fn lemma_parse_ticks_bytes(ts: Seq<TickRecord>)
    ensures
        parse_ticks(ticks_bytes(ts), ts.len()) == ts,
{
    lemma_ticks_bytes(ts);
    assert forall|i: int| 0 <= i < ts.len() implies #[trigger] parse_ticks(
        ticks_bytes(ts),
        ts.len(),
    )[i] == ts[i] by {
        assert(ticks_bytes(ts).subrange(i * 72, i * 72 + 72) == tick_record_bytes(ts[i]));
        lemma_parse_tick_record_bytes(ts[i]);
    }
    assert(parse_ticks(ticks_bytes(ts), ts.len()) =~= ts);
}

/// A well-formed frame, encoded and followed by any further bytes, is cut
/// back out whole by the decoder: the same frame, its exact wire bytes, the
/// warnings its records call for, and the following bytes left in place.
pub proof fn lemma_decode_encoded_frame(
    f: Frame,
    rest: Seq<u8>,
    after: Seq<u8>,
    r: Result<Option<DecodedFrame>, ProtocolError>,
)
    requires
        frame_well_formed(f),
        next_frame_outcome(frame_bytes(f) + rest, after, r),
    ensures
        r matches Ok(Some(d)) && same_frame(d.frame, f) && d.raw_wire_bytes@ == frame_bytes(f)
            && texts(d.warnings@) == frame_warnings(f),
        after == rest,
{
    let h = f.header;
    let buf = frame_bytes(f) + rest;
    lemma_parse_header_bytes(h);
    lemma_parse_header_prefix(buf);
    assert(buf.subrange(0, 40) =~= header_bytes(h));
    assert(parse_header(buf) == h);
    let pb = payload_bytes(f.payload);
    let total = 40 + h.payload_length;
    match f.payload {
        FramePayload::TickBatch(ts) => {
            lemma_ticks_bytes(ts@);
        },
        FramePayload::Heartbeat(hb) => {
            lemma_parse_heartbeat_bytes(hb);
        },
        FramePayload::BatchAck(ack) => {
            assert(le64(ack.sequence_end).subrange(0, 8) =~= le64(ack.sequence_end));
        },
        FramePayload::Status(st) => {
            lemma_parse_status_bytes(st);
        },
    }
    assert(pb.len() == h.payload_length);
    assert(buf.subrange(40, total) =~= pb);
    assert(buf.subrange(0, total) =~= frame_bytes(f));
    assert(buf.subrange(total, buf.len() as int) =~= rest);
    match f.payload {
        FramePayload::TickBatch(ts) => {
            lemma_parse_ticks_bytes(ts@);
        },
        _ => {},
    }
}

} // verus!
