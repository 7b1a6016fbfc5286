//! The binary log format written by the logger: a 56-byte file header,
//! then records, each a 24-byte envelope followed by its payload.

use crate::contracts::crc32c::{crc32c, spec_crc32c};
use crate::contracts::le_bytes::{
    at16, at32, at64, group_le_bytes, le16, le32, le64, le_i64, lemma_le32_bytes, push_u16,
    push_u32, push_u64, put_u32, splice,
};
use crate::contracts::types::{
    disposition_code, severity_code, system_time_unix_nanos, BrokerId, Diagnostic, LogMetadata,
    LogRawFrame, LogRecord, RunId, SequenceDisposition,
};
use crate::logging::{civil_from_days, is_civil_date_of};
use crate::storage::hex::{encode, hex_text};
use crate::text::{chars_of, dec, push_char, push_dec_padded, push_signed_padded, push_str, signed_zero_pad, string_of, zero_pad};
use vstd::prelude::*;
use vstd::utf8::encode_utf8;

verus! {

broadcast use group_le_bytes;

/// File magic: the bytes `T L O G`.
pub const STORAGE_MAGIC: [u8; 4] = [0x54, 0x4C, 0x4F, 0x47];

pub const STORAGE_VERSION: u16 = 1;

pub const FILE_HEADER_LEN: usize = 56;

pub const RECORD_ENVELOPE_LEN: usize = 24;

pub const RECORD_KIND_RAW_FRAME: u16 = 1;

pub const RECORD_KIND_METADATA: u16 = 2;

pub const RECORD_KIND_DIAGNOSTIC: u16 = 3;

/// The four magic bytes.
pub open spec fn storage_magic() -> Seq<u8> {
    seq![0x54u8, 0x4Cu8, 0x4Fu8, 0x47u8]
}

// ---------------------------------------------------------------------
// Record payloads
// ---------------------------------------------------------------------

/// The storage codes of a list of dispositions, one byte each.
pub open spec fn disposition_bytes(ds: Seq<SequenceDisposition>) -> Seq<u8> {
    ds.map_values(|d: SequenceDisposition| disposition_code(d))
}

/// The payload of a raw-frame record.
pub open spec fn raw_frame_payload(raw: LogRawFrame) -> Seq<u8> {
    le32(raw.broker_id) + le64(raw.connection_generation) + le64(raw.frame_index) + le64(
        raw.rx_mono_ns.0,
    ) + le_i64(
        match raw.rx_unix_ns {
            Some(v) => v,
            None => 0,
        },
    ) + le64(raw.config_epoch) + le64(raw.analysis_segment) + le32(
        raw.raw_wire_bytes@.len() as u32,
    ) + le32(raw.dispositions@.len() as u32) + raw.raw_wire_bytes@ + disposition_bytes(
        raw.dispositions@,
    )
}

/// The payload of a configuration-metadata record; the text as UTF-8.
pub open spec fn metadata_payload(meta: LogMetadata) -> Seq<u8> {
    let text = encode_utf8(meta.toml_text@);
    le64(meta.config_epoch) + le64(meta.observed_mono_ns.0) + le32(text.len() as u32) + text
}

/// The optional-field bits of a diagnostic record: session, sequence
/// range, known count.
pub open spec fn diagnostic_flags(d: Diagnostic) -> u16 {
    ((if d.session_id is Some {
        1u16
    } else {
        0u16
    }) + (if d.sequence_range is Some {
        2u16
    } else {
        0u16
    }) + (if d.known_count is Some {
        4u16
    } else {
        0u16
    })) as u16
}

/// The payload of a diagnostic record.
pub open spec fn diagnostic_payload(d: Diagnostic) -> Seq<u8> {
    let code = encode_utf8(d.code@);
    let msg = encode_utf8(d.message@);
    let range = match d.sequence_range {
        Some(r) => r,
        None => (0u64, 0u64),
    };
    le64(d.mono_ns.0) + le32(d.broker_id) + le16(severity_code(d.severity)) + le16(
        diagnostic_flags(d),
    ) + le64(
        match d.session_id {
            Some(s) => s,
            None => 0,
        },
    ) + le64(range.0) + le64(range.1) + le64(
        match d.known_count {
            Some(c) => c,
            None => 0,
        },
    ) + le_i64(d.detail_value) + le32(code.len() as u32) + le32(msg.len() as u32) + code + msg
}

/// The payload of any record.
pub open spec fn record_payload(r: LogRecord) -> Seq<u8> {
    match r {
        LogRecord::RawFrame(raw) => raw_frame_payload(raw),
        LogRecord::Metadata(meta) => metadata_payload(meta),
        LogRecord::Diagnostic(d) => diagnostic_payload(d),
    }
}

/// The record kind stored in the envelope.
pub open spec fn record_kind(r: LogRecord) -> u16 {
    match r {
        LogRecord::RawFrame(_) => RECORD_KIND_RAW_FRAME,
        LogRecord::Metadata(_) => RECORD_KIND_METADATA,
        LogRecord::Diagnostic(_) => RECORD_KIND_DIAGNOSTIC,
    }
}

/// The envelope flags: for raw frames, whether a wall-clock receive time
/// is present.
pub open spec fn record_flags(r: LogRecord) -> u16 {
    match r {
        LogRecord::RawFrame(raw) => if raw.rx_unix_ns is Some {
            1
        } else {
            0
        },
        _ => 0,
    }
}

/// The 24 envelope bytes: total length, kind, flags, record index,
/// checksum and a reserved zero word.
pub open spec fn envelope_bytes(total: u32, kind: u16, flags: u16, index: u64, crc: u32) -> Seq<
    u8,
> {
    le32(total) + le16(kind) + le16(flags) + le64(index) + le32(crc) + le32(0)
}

/// The record fits the 32-bit total length of its envelope.
pub open spec fn record_fits(r: LogRecord) -> bool {
    RECORD_ENVELOPE_LEN + record_payload(r).len() <= u32::MAX
}

/// The bytes of record `r` stored with index `index`: the envelope, whose
/// checksum is the CRC32C of the envelope with a zero checksum followed by
/// the payload, then the payload.
pub open spec fn record_bytes(r: LogRecord, index: u64) -> Seq<u8> {
    let p = record_payload(r);
    let total = (RECORD_ENVELOPE_LEN + p.len()) as u32;
    let crc = spec_crc32c(
        envelope_bytes(total, record_kind(r), record_flags(r), index, 0) + p,
    );
    envelope_bytes(total, record_kind(r), record_flags(r), index, crc) + p
}

/// The broker whose log file receives a record; configuration metadata
/// belongs to the run as a whole and goes to broker 0.
pub open spec fn spec_log_broker_id(r: LogRecord) -> BrokerId {
    match r {
        LogRecord::RawFrame(raw) => raw.broker_id,
        LogRecord::Diagnostic(d) => d.broker_id,
        LogRecord::Metadata(_) => 0,
    }
}

/// Whether the record fits the 32-bit total length of its envelope.
pub fn fits_envelope(record: &LogRecord) -> (r: bool)
    ensures
        r == record_fits(*record),
{
    proof {
        lemma_payload_len(*record);
    }
    let payload: u128 = match record {
        LogRecord::RawFrame(raw) => {
            60 + raw.raw_wire_bytes.len() as u128 + raw.dispositions.len() as u128
        },
        LogRecord::Metadata(meta) => 20 + meta.toml_text.as_str().as_bytes().len() as u128,
        LogRecord::Diagnostic(d) => {
            64 + d.code.as_str().as_bytes().len() as u128 + d.message.as_str().as_bytes().len() as u128
        },
    };
    24 + payload <= 0xFFFF_FFFFu128
}

/// Encodes a record with its envelope and checksum.
pub fn encode_record(record: &LogRecord, record_index: u64) -> (r: Result<Vec<u8>, String>)
    requires
        record_fits(*record),
    ensures
        r matches Ok(bytes) && bytes@ == record_bytes(*record, record_index),
{
    let mut payload: Vec<u8> = Vec::new();
    let (kind, flags): (u16, u16) = match record {
        LogRecord::RawFrame(raw) => {
            let flags: u16 = if raw.rx_unix_ns.is_some() {
                1
            } else {
                0
            };
            let unix: i64 = match raw.rx_unix_ns {
                Some(v) => v,
                None => 0,
            };
            push_u32(&mut payload, raw.broker_id);
            push_u64(&mut payload, raw.connection_generation);
            push_u64(&mut payload, raw.frame_index);
            push_u64(&mut payload, raw.rx_mono_ns.0);
            push_u64(&mut payload, unix as u64);
            push_u64(&mut payload, raw.config_epoch);
            push_u64(&mut payload, raw.analysis_segment);
            let wire: &Vec<u8> = &*raw.raw_wire_bytes;
            push_u32(&mut payload, wire.len() as u32);
            push_u32(&mut payload, raw.dispositions.len() as u32);
            payload.extend_from_slice(wire.as_slice());
            let ghost head = payload@;
            let mut i: usize = 0;
            while i < raw.dispositions.len()
                invariant
                    i <= raw.dispositions@.len(),
                    payload@ == head + disposition_bytes(raw.dispositions@.take(i as int)),
                decreases raw.dispositions@.len() - i,
            {
                payload.push(raw.dispositions[i].code());
                assert(disposition_bytes(raw.dispositions@.take(i + 1)) =~= disposition_bytes(
                    raw.dispositions@.take(i as int),
                ).push(disposition_code(raw.dispositions@[i as int])));
                i = i + 1;
            }
            assert(raw.dispositions@.take(i as int) =~= raw.dispositions@);
            assert(payload@ =~= raw_frame_payload(*raw));
            (RECORD_KIND_RAW_FRAME, flags)
        },
        LogRecord::Metadata(meta) => {
            push_u64(&mut payload, meta.config_epoch);
            push_u64(&mut payload, meta.observed_mono_ns.0);
            let text = meta.toml_text.as_str().as_bytes();
            push_u32(&mut payload, text.len() as u32);
            payload.extend_from_slice(text);
            assert(payload@ =~= metadata_payload(*meta));
            (RECORD_KIND_METADATA, 0)
        },
        LogRecord::Diagnostic(diag) => {
            let mut flags: u16 = 0;
            if diag.session_id.is_some() {
                flags = flags + 1;
            }
            if diag.sequence_range.is_some() {
                flags = flags + 2;
            }
            if diag.known_count.is_some() {
                flags = flags + 4;
            }
            let session: u64 = match diag.session_id {
                Some(s) => s,
                None => 0,
            };
            let (first, last): (u64, u64) = match diag.sequence_range {
                Some(r) => r,
                None => (0, 0),
            };
            let count: u64 = match diag.known_count {
                Some(c) => c,
                None => 0,
            };
            push_u64(&mut payload, diag.mono_ns.0);
            push_u32(&mut payload, diag.broker_id);
            push_u16(&mut payload, diag.severity.code());
            push_u16(&mut payload, flags);
            push_u64(&mut payload, session);
            push_u64(&mut payload, first);
            push_u64(&mut payload, last);
            push_u64(&mut payload, count);
            push_u64(&mut payload, diag.detail_value as u64);
            let code = diag.code.as_str().as_bytes();
            let msg = diag.message.as_str().as_bytes();
            push_u32(&mut payload, code.len() as u32);
            push_u32(&mut payload, msg.len() as u32);
            payload.extend_from_slice(code);
            payload.extend_from_slice(msg);
            assert(payload@ =~= diagnostic_payload(*diag));
            (RECORD_KIND_DIAGNOSTIC, 0)
        },
    };
    let total_len = (RECORD_ENVELOPE_LEN + payload.len()) as u32;
    let mut out: Vec<u8> = Vec::new();
    push_u32(&mut out, total_len);
    push_u16(&mut out, kind);
    push_u16(&mut out, flags);
    push_u64(&mut out, record_index);
    push_u32(&mut out, 0);
    push_u32(&mut out, 0);
    out.extend_from_slice(payload.as_slice());
    let ghost unsigned = out@;
    assert(unsigned =~= envelope_bytes(total_len, kind, flags, record_index, 0) + payload@);
    let checksum = crc32c(out.as_slice());
    put_u32(out.as_mut_slice(), 16, checksum);
    assert(splice(unsigned, 16, le32(checksum)) =~= envelope_bytes(
        total_len,
        kind,
        flags,
        record_index,
        checksum,
    ) + payload@);
    Ok(out)
}

/// The 56 bytes of a file header written at time `created_ns`: magic,
/// version, header length, run id, file id, broker id, zero flags, the
/// The length of a record's payload, by kind: 60 bytes of fixed fields
/// plus the wire bytes and one byte per disposition for a raw frame, 20
/// plus the UTF-8 text for metadata, 64 plus the UTF-8 code and message
/// for a diagnostic.
pub open spec fn payload_len(r: LogRecord) -> nat {
    match r {
        LogRecord::RawFrame(raw) => 60 + raw.raw_wire_bytes@.len() + raw.dispositions@.len(),
        LogRecord::Metadata(meta) => 20 + encode_utf8(meta.toml_text@).len(),
        LogRecord::Diagnostic(d) => 64 + encode_utf8(d.code@).len() + encode_utf8(
            d.message@,
        ).len(),
    }
}

/// The payload of a record is `payload_len` bytes long.
pub proof fn lemma_payload_len(r: LogRecord)
    ensures
        record_payload(r).len() == payload_len(r),
{
    match r {
        LogRecord::RawFrame(raw) => {
            assert(disposition_bytes(raw.dispositions@).len() == raw.dispositions@.len());
        },
        _ => {},
    }
}

/// What a reader finds in the bytes of an encoded record: the total
/// length, the kind (1 raw frame, 2 metadata, 3 diagnostic), the flags
/// (for a raw frame, bit 0 set exactly when a wall-clock receive time is
/// present), the record index, a zero reserved word, and a checksum that
/// is the CRC32C of the record with the checksum field zeroed; the payload
/// follows the 24 envelope bytes.
pub proof fn lemma_record_fields(r: LogRecord, index: u64)
    requires
        record_fits(r),
    ensures
        record_payload(r).len() == payload_len(r),
        record_bytes(r, index).len() == RECORD_ENVELOPE_LEN + payload_len(r),
        at32(record_bytes(r, index), 0) == record_bytes(r, index).len(),
        at16(record_bytes(r, index), 4) == record_kind(r),
        at16(record_bytes(r, index), 6) == record_flags(r),
        at64(record_bytes(r, index), 8) == index,
        record_bytes(r, index).subrange(20, 24) == seq![0u8, 0u8, 0u8, 0u8],
        at32(record_bytes(r, index), 16) == spec_crc32c(
            splice(record_bytes(r, index), 16, seq![0u8, 0u8, 0u8, 0u8]),
        ),
        record_bytes(r, index).subrange(24, record_bytes(r, index).len() as int)
            == record_payload(r),
        r matches LogRecord::RawFrame(raw) ==> (at16(record_bytes(r, index), 6) == 1
            <==> raw.rx_unix_ns is Some),
{
    let p = record_payload(r);
    lemma_payload_len(r);
    let total = (RECORD_ENVELOPE_LEN + p.len()) as u32;
    let k = record_kind(r);
    let f = record_flags(r);
    let e0 = envelope_bytes(total, k, f, index, 0);
    let crc = spec_crc32c(e0 + p);
    let b = record_bytes(r, index);
    assert(b == envelope_bytes(total, k, f, index, crc) + p);
    let zero = seq![0u8, 0u8, 0u8, 0u8];
    lemma_le32_bytes(0);
    let z: u32 = 0;
    assert((z & 0xff) as u8 == 0u8 && ((z >> 8) & 0xff) as u8 == 0u8 && ((z >> 16) & 0xff) as u8
        == 0u8 && ((z >> 24) & 0xff) as u8 == 0u8) by (bit_vector)
        requires
            z == 0u32,
    ;
    assert(le32(0) =~= zero);
    assert(b.subrange(0, 4) =~= le32(total));
    assert(b.subrange(4, 6) =~= le16(k));
    assert(b.subrange(6, 8) =~= le16(f));
    assert(b.subrange(8, 16) =~= le64(index));
    assert(b.subrange(16, 20) =~= le32(crc));
    assert(b.subrange(20, 24) =~= zero);
    assert(b.subrange(24, b.len() as int) =~= p);
    assert(splice(b, 16, zero) =~= e0 + p);
}

/// creation time in nanoseconds, and eight reserved zero bytes.
pub open spec fn file_header_bytes(run_id: RunId, file_id: u64, broker_id: BrokerId, created_ns: i64) -> Seq<u8> {
    storage_magic() + le16(STORAGE_VERSION) + le16(FILE_HEADER_LEN as u16) + run_id.0@ + le64(
        file_id,
    ) + le32(broker_id) + le32(0) + le_i64(created_ns) + le64(0)
}

/// The header of a log file created at `created_ns` nanoseconds after the
/// Unix epoch.
pub fn file_header_at(run_id: RunId, file_id: u64, broker_id: BrokerId, created_ns: i64) -> (r: [u8; 56])
    ensures
        r@ == file_header_bytes(run_id, file_id, broker_id, created_ns),
{
    let mut out: Vec<u8> = Vec::new();
    out.extend_from_slice(STORAGE_MAGIC.as_slice());
    push_u16(&mut out, STORAGE_VERSION);
    push_u16(&mut out, FILE_HEADER_LEN as u16);
    out.extend_from_slice(run_id.0.as_slice());
    push_u64(&mut out, file_id);
    push_u32(&mut out, broker_id);
    push_u32(&mut out, 0);
    push_u64(&mut out, created_ns as u64);
    push_u64(&mut out, 0);
    assert(STORAGE_MAGIC@ == storage_magic());
    assert(out@ =~= file_header_bytes(run_id, file_id, broker_id, created_ns));
    let mut hdr = [0u8; 56];
    let mut i: usize = 0;
    while i < 56
        invariant
            out@.len() == 56,
            i <= 56,
            forall|k: int| 0 <= k < i ==> hdr@[k] == out@[k],
        decreases 56 - i,
    {
        hdr[i] = out[i];
        i = i + 1;
    }
    assert(hdr@ =~= out@);
    hdr
}

/// Builds the header of a new log file, stamped with the current system
/// time (its nanoseconds since the Unix epoch, kept to 64 signed bits).
pub fn create_file_header(run_id: RunId, file_id: u64, broker_id: BrokerId) -> (r: [u8; 56])
    ensures
        exists|t: i64| r@ == file_header_bytes(run_id, file_id, broker_id, t),
{
    let now_ns = system_time_unix_nanos() as i64;
    file_header_at(run_id, file_id, broker_id, now_ns)
}

/// The broker whose log file receives `record`.
pub fn log_broker_id(record: &LogRecord) -> (r: BrokerId)
    ensures
        r == spec_log_broker_id(*record),
{
    match record {
        LogRecord::RawFrame(raw) => raw.broker_id,
        LogRecord::Diagnostic(diagnostic) => diagnostic.broker_id,
        LogRecord::Metadata(_) => 0,
    }
}

/// The bytes a queued record is charged against the logger's memory
/// budget: its variable-length parts plus a fixed overhead, saturating.
pub open spec fn spec_queued_record_bytes(r: LogRecord) -> int {
    let v: int = match r {
        LogRecord::RawFrame(raw) => raw.raw_wire_bytes@.len() + raw.dispositions@.len() + 128int,
        LogRecord::Metadata(m) => encode_utf8(m.toml_text@).len() + 64int,
        LogRecord::Diagnostic(d) => encode_utf8(d.code@).len() + encode_utf8(d.message@).len()
            + 128int,
    };
    if v > usize::MAX {
        usize::MAX as int
    } else {
        v
    }
}

/// A conservative upper bound on the memory a queued record occupies.
pub fn queued_record_bytes(record: &LogRecord) -> (r: usize)
    ensures
        r == spec_queued_record_bytes(*record),
{
    match record {
        LogRecord::RawFrame(raw) => {
            let wire: &Vec<u8> = &*raw.raw_wire_bytes;
            wire.len().saturating_add(raw.dispositions.len()).saturating_add(128)
        },
        LogRecord::Metadata(metadata) => {
            let n = metadata.toml_text.as_str().as_bytes().len();
            n.saturating_add(64)
        },
        LogRecord::Diagnostic(diagnostic) => {
            let c = diagnostic.code.as_str().as_bytes().len();
            let m = diagnostic.message.as_str().as_bytes().len();
            c.saturating_add(m).saturating_add(128)
        },
    }
}

/// Whether `bytes` more can be admitted to a queue already holding
/// `current` bytes under a budget of `max_queue_bytes`; the new total if so.
pub fn reserve_queue_bytes(current: usize, bytes: usize, max_queue_bytes: usize) -> (r: Option<
    usize,
>)
    ensures
        current + bytes <= max_queue_bytes <==> r is Some,
        r matches Some(n) ==> n == current + bytes,
{
    match current.checked_add(bytes) {
        Some(next) => if next > max_queue_bytes {
            None
        } else {
            Some(next)
        },
        None => None,
    }
}

// ---------------------------------------------------------------------
// Log files and where records go
// ---------------------------------------------------------------------

/// The UTC date `YYYY-MM-DD` of a day.
pub open spec fn date_text(y: int, m: int, d: int) -> Seq<char> {
    signed_zero_pad(y, 4) + "-"@ + zero_pad(dec(m as nat), 2) + "-"@ + zero_pad(dec(d as nat), 2)
}

/// The UTC date, `YYYY-MM-DD`, of the instant `unix_secs` seconds after the
/// epoch, naming the log directory of that day.
pub fn utc_date_of(unix_secs: i64) -> (r: String)
    ensures
        exists|y: int, m: int, d: int|
            is_civil_date_of(unix_secs as int / 86_400, y, m, d) && #[trigger] date_text(y, m, d) == r@,
{
    let mut days = unix_secs / 86_400;
    if unix_secs % 86_400 < 0 {
        days = days - 1;
    }
    assert(days == unix_secs as int / 86_400);
    let (year, month, day) = civil_from_days(days);
    let mut out = String::new();
    push_signed_padded(&mut out, year, 4);
    push_char(&mut out, '-');
    push_dec_padded(&mut out, month as u64, 2);
    push_char(&mut out, '-');
    push_dec_padded(&mut out, day as u64, 2);
    proof {
        reveal_strlit("-");
        assert(out@ =~= date_text(year as int, month as int, day as int));
    }
    out
}

/// The directory of a broker's logs: `global` for the run as a whole,
/// else `broker-NNN`.
pub open spec fn broker_dir_text(broker_id: BrokerId) -> Seq<char> {
    if broker_id == 0 {
        "global"@
    } else {
        "broker-"@ + zero_pad(dec(broker_id as nat), 3)
    }
}

/// The directory name of a broker's logs.
pub fn broker_dir_name(broker_id: BrokerId) -> (r: String)
    ensures
        r@ == broker_dir_text(broker_id),
{
    if broker_id == 0 {
        string_of("global")
    } else {
        let mut s = string_of("broker-");
        push_dec_padded(&mut s, broker_id as u64, 3);
        s
    }
}

/// The file name of log file `file_id` of a run: `run_<hex id>_<NNNN>.tlog`.
pub open spec fn log_file_text(run_id: RunId, file_id: u64) -> Seq<char> {
    "run_"@ + hex_text(run_id.0@) + "_"@ + zero_pad(dec(file_id as nat), 4) + ".tlog"@
}

/// The file name of log file `file_id` of a run.
pub fn log_file_name(run_id: RunId, file_id: u64) -> (r: String)
    ensures
        r@ == log_file_text(run_id, file_id),
{
    let mut s = string_of("run_");
    let h = encode(run_id.0.as_slice());
    push_str(&mut s, h.as_str());
    push_str(&mut s, "_");
    push_dec_padded(&mut s, file_id, 4);
    push_str(&mut s, ".tlog");
    s
}

/// The log file open for one broker: the UTC date it belongs to and the
/// index of the next record written to it.
pub struct LogRoute {
    pub broker_id: BrokerId,
    pub utc_date: String,
    pub next_record_index: u64,
}

/// Where one record goes.
#[derive(Debug, Clone, Copy, PartialEq, Eq, Structural)]
pub struct RouteDecision {
    /// The broker's open file, of an earlier date, is to be flushed and
    /// closed first.
    pub close_previous: bool,
    /// A new file with this id is to be opened for the broker.
    pub open_file_id: Option<u64>,
    /// The index the record is written with.
    pub record_index: u64,
}

/// The abstract state of a log router: per broker, the date of its open
/// file and its next record index; and the id the next new file gets.
pub struct RouterView {
    pub routes: Seq<(BrokerId, Seq<char>, u64)>,
    pub next_file_id: u64,
}

/// The index of `broker` among the routes, if it has one.
pub open spec fn route_index(routes: Seq<(BrokerId, Seq<char>, u64)>, broker: BrokerId) -> Option<int> {
    if exists|i: int| 0 <= i < routes.len() && routes[i].0 == broker {
        Some(choose|i: int| 0 <= i < routes.len() && routes[i].0 == broker)
    } else {
        None
    }
}

/// `n + 1`, saturating.
pub open spec fn sat_inc(n: u64) -> u64 {
    if n == u64::MAX {
        u64::MAX
    } else {
        (n + 1) as u64
    }
}

/// What routing a record of `broker` on `date` does: the decision and the
/// router after it. A broker without an open file, or whose file is of
/// another date, gets a new file with the next file id, its records
/// numbered from 0.
pub open spec fn route_step(v: RouterView, broker: BrokerId, date: Seq<char>) -> (RouteDecision, RouterView) {
    match route_index(v.routes, broker) {
        Some(i) => if v.routes[i].1 == date {
            (
                RouteDecision { close_previous: false, open_file_id: None, record_index: v.routes[i].2 },
                RouterView { routes: v.routes.update(i, (broker, date, sat_inc(v.routes[i].2))), ..v },
            )
        } else {
            (
                RouteDecision { close_previous: true, open_file_id: Some(v.next_file_id), record_index: 0 },
                RouterView {
                    routes: v.routes.update(i, (broker, date, 1)),
                    next_file_id: sat_inc(v.next_file_id),
                },
            )
        },
        None => (
            RouteDecision { close_previous: false, open_file_id: Some(v.next_file_id), record_index: 0 },
            RouterView { routes: v.routes.push((broker, date, 1)), next_file_id: sat_inc(v.next_file_id) },
        ),
    }
}

/// Decides, for the logger, which file each record goes to and with which
/// index.
pub struct LogRouter {
    routes: Vec<LogRoute>,
    next_file_id: u64,
}

impl View for LogRouter {
    type V = RouterView;

    closed spec fn view(&self) -> RouterView {
        RouterView {
            routes: self.routes@.map_values(|r: LogRoute| (r.broker_id, r.utc_date@, r.next_record_index)),
            next_file_id: self.next_file_id,
        }
    }
}

impl LogRouter {
    /// Each broker has at most one open file.
    pub closed spec fn wf(&self) -> bool {
        forall|i: int, j: int|
            0 <= i < self.routes@.len() && 0 <= j < self.routes@.len() && i != j
                ==> #[trigger] self.routes@[i].broker_id != #[trigger] self.routes@[j].broker_id
    }

    /// No file open yet; the first file gets id 1.
    pub fn new() -> (r: Self)
        ensures
            r.wf(),
            r@.routes.len() == 0,
            r@.next_file_id == 1,
    {
        LogRouter { routes: Vec::new(), next_file_id: 1 }
    }

    /// Routes one record of `broker_id` written on `utc_date`.
    pub fn route(&mut self, broker_id: BrokerId, utc_date: &str) -> (r: RouteDecision)
        requires
            old(self).wf(),
        ensures
            final(self).wf(),
            (r, final(self)@) == route_step(old(self)@, broker_id, utc_date@),
    {
        let ghost v = self@;
        let n = self.routes.len();
        let mut i: usize = 0;
        while i < n && self.routes[i].broker_id != broker_id
            invariant
                n == self.routes@.len(),
                i <= n,
                self@ == v,
                forall|k: int| 0 <= k < i ==> self.routes@[k].broker_id != broker_id,
            decreases n - i,
        {
            i = i + 1;
        }
        if i < n {
            proof {
                assert(v.routes[i as int].0 == broker_id);
                assert(route_index(v.routes, broker_id) == Some(i as int)) by {
                    let c = choose|c: int| 0 <= c < v.routes.len() && v.routes[c].0 == broker_id;
                    if c != i {
                        assert(self.routes@[c].broker_id == broker_id);
                    }
                }
            }
            let d = chars_of(utc_date);
            let same = {
                let cur = chars_of(self.routes[i].utc_date.as_str());
                same_chars(cur.as_slice(), d.as_slice())
            };
            if same {
                let idx = self.routes[i].next_record_index;
                let mut route = self.routes.remove(i);
                route.next_record_index = idx.saturating_add(1);
                self.routes.insert(i, route);
                proof {
                    assert(self@.routes =~= v.routes.update(i as int, (broker_id, utc_date@, sat_inc(idx))));
                }
                RouteDecision { close_previous: false, open_file_id: None, record_index: idx }
            } else {
                let file_id = self.next_file_id;
                let _old = self.routes.remove(i);
                self.routes.insert(i, LogRoute { broker_id, utc_date: string_of(utc_date), next_record_index: 1 });
                self.next_file_id = file_id.saturating_add(1);
                proof {
                    assert(self@.routes =~= v.routes.update(i as int, (broker_id, utc_date@, 1u64)));
                }
                RouteDecision { close_previous: true, open_file_id: Some(file_id), record_index: 0 }
            }
        } else {
            let file_id = self.next_file_id;
            self.routes.push(LogRoute { broker_id, utc_date: string_of(utc_date), next_record_index: 1 });
            self.next_file_id = file_id.saturating_add(1);
            proof {
                assert(self@.routes =~= v.routes.push((broker_id, utc_date@, 1u64)));
            }
            RouteDecision { close_previous: false, open_file_id: Some(file_id), record_index: 0 }
        }
    }
}

fn same_chars(a: &[char], b: &[char]) -> (r: bool)
    ensures
        r == (a@ == b@),
{
    if a.len() != b.len() {
        return false;
    }
    let mut i: usize = 0;
    while i < a.len()
        invariant
            a@.len() == b@.len(),
            i <= a@.len(),
            forall|k: int| 0 <= k < i ==> a@[k] == b@[k],
        decreases a@.len() - i,
    {
        if a[i] != b[i] {
            return false;
        }
        i = i + 1;
    }
    assert(a@ =~= b@);
    true
}

/// Brokers have at most one route each.
pub open spec fn routes_distinct(routes: Seq<(BrokerId, Seq<char>, u64)>) -> bool {
    forall|i: int, j: int|
        0 <= i < routes.len() && 0 <= j < routes.len() && i != j ==> #[trigger] routes[i].0
            != #[trigger] routes[j].0
}

/// Records routed in turn to one broker on one date go to the same file
/// with consecutive indices.
pub proof fn lemma_route_same_day(v: RouterView, broker: BrokerId, date: Seq<char>)
    requires
        routes_distinct(v.routes),
        route_index(v.routes, broker) matches Some(i) && v.routes[i].1 == date && v.routes[i].2 < u64::MAX,
    ensures
        ({
            let (d1, v1) = route_step(v, broker, date);
            let (d2, _) = route_step(v1, broker, date);
            &&& d1.open_file_id is None
            &&& d2.open_file_id is None
            &&& d2.record_index == d1.record_index + 1
        }),
{
    let i = route_index(v.routes, broker)->0;
    let v1 = route_step(v, broker, date).1;
    assert(v1.routes[i].0 == broker);
    assert(route_index(v1.routes, broker) is Some);
    let j = route_index(v1.routes, broker)->0;
    if j != i {
        assert(v1.routes[j] == v.routes[j]);
        assert(v.routes[j].0 == broker);
    }
}

} // verus!
