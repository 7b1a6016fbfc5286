//! Reading a binary log back: the file header, then one record at a time,
//! each checked against its envelope and checksum.

use crate::contracts::crc32c::{crc32c, spec_crc32c};
use crate::contracts::le_bytes::{at16, at32, at64, get_u16, get_u32, get_u64, group_le_bytes, le16, le32, le64, le_i64, push_u32};
use crate::contracts::types::{
    disposition_from_code, severity_from_code, BrokerId, Diagnostic, DiagnosticSeverity,
    LogMetadata, LogRawFrame, LogRecord, MonoNs, RunId, SequenceDisposition,
};
use crate::storage::logger::{
    diagnostic_flags, file_header_bytes, record_bytes, record_fits, record_payload, record_kind,
    record_flags, envelope_bytes, raw_frame_payload, metadata_payload, diagnostic_payload,
    disposition_bytes, storage_magic, FILE_HEADER_LEN, RECORD_ENVELOPE_LEN, STORAGE_MAGIC,
    STORAGE_VERSION, RECORD_KIND_DIAGNOSTIC, RECORD_KIND_METADATA, RECORD_KIND_RAW_FRAME,
};
use crate::text::{dec, hex, push_dec, push_hex_padded, push_str, string_of, zero_pad};
use std::sync::Arc;
use vstd::prelude::*;
use vstd::slice::{slice_subrange, slice_to_vec};
use vstd::utf8::{decode_utf8, encode_utf8, encode_utf8_decode_utf8, encode_utf8_valid_utf8, valid_utf8};

verus! {

broadcast use group_le_bytes;

/// What reading the next record gave.
#[derive(Debug, PartialEq)]
pub enum ReadResult {
    Record(LogRecord),
    CleanEof,
    TruncatedTail(usize),
    Corrupt(String),
}

/// The text `String::from_utf8_lossy` makes of `bytes`.
pub uninterp spec fn utf8_lossy(bytes: Seq<u8>) -> Seq<char>;

/// Calls `String::from_utf8_lossy`. Claimed: the result is the named
/// lossy decoding of the bytes, and for valid UTF-8 it is exactly the
/// decoded text. What replaces invalid sequences is left unstated.
#[verifier::external_body]
fn string_from_utf8_lossy(bytes: &[u8]) -> (r: String)
    ensures
        r@ == utf8_lossy(bytes@),
        valid_utf8(bytes@) ==> r@ == decode_utf8(bytes@),
{
    String::from_utf8_lossy(bytes).into_owned()
}

/// `s` is the text read from `b`.
pub open spec fn lossy_text(s: Seq<char>, b: Seq<u8>) -> bool {
    s == utf8_lossy(b) && (valid_utf8(b) ==> s == decode_utf8(b))
}

/// `r` reports corruption with the message `msg`.
pub open spec fn is_corrupt(r: ReadResult, msg: Seq<char>) -> bool {
    r matches ReadResult::Corrupt(m) && m@ == msg
}

pub open spec fn msg_header_short() -> Seq<char> {
    "Failed to read file header: failed to fill whole buffer"@
}

pub open spec fn msg_bad_magic() -> Seq<char> {
    "Invalid file magic, expected TLOG"@
}

pub open spec fn msg_total_too_small(total: nat) -> Seq<char> {
    "total_length "@ + dec(total) + " is smaller than envelope header 24"@
}

pub open spec fn msg_crc_mismatch(index: u64, stored: u32, calculated: u32) -> Seq<char> {
    "CRC32C mismatch at record "@ + dec(index as nat) + ": stored 0x"@ + zero_pad(
        hex(stored as nat),
        8,
    ) + ", calculated 0x"@ + zero_pad(hex(calculated as nat), 8)
}

pub open spec fn msg_broker_mismatch(prefix: Seq<char>, found: u32, file: u32) -> Seq<char> {
    prefix + dec(found as nat) + " does not match file broker "@ + dec(file as nat)
}

/// The dispositions stored as one code byte each.
pub open spec fn dispositions_of(b: Seq<u8>) -> Seq<SequenceDisposition> {
    b.map_values(|c: u8| disposition_from_code(c))
}

/// What the payload `p` of a record of `kind` with envelope `flags` decodes
/// to, in a file of broker `broker` (0 for a file of the whole run).
pub open spec fn payload_outcome(kind: u16, flags: u16, p: Seq<u8>, broker: BrokerId, r: ReadResult) -> bool {
    if kind == RECORD_KIND_RAW_FRAME {
        if p.len() < 60 {
            is_corrupt(r, "RawFrame payload too short"@)
        } else if broker != 0 && at32(p, 0) != broker {
            is_corrupt(r, msg_broker_mismatch("RawFrame broker "@, at32(p, 0), broker))
        } else if p.len() < 60 + at32(p, 52) + at32(p, 56) {
            is_corrupt(r, "RawFrame wire/dispositions truncated"@)
        } else {
            let wl = at32(p, 52) as int;
            let dc = at32(p, 56) as int;
            &&& r matches ReadResult::Record(LogRecord::RawFrame(raw))
            &&& raw.broker_id == at32(p, 0)
            &&& raw.connection_generation == at64(p, 4)
            &&& raw.frame_index == at64(p, 12)
            &&& raw.rx_mono_ns == MonoNs(at64(p, 20))
            &&& raw.rx_unix_ns == (if flags & 1 != 0 {
                Some(at64(p, 28) as i64)
            } else {
                None
            })
            &&& raw.config_epoch == at64(p, 36)
            &&& raw.analysis_segment == at64(p, 44)
            &&& raw.raw_wire_bytes@ == p.subrange(60, 60 + wl)
            &&& raw.dispositions@ == dispositions_of(p.subrange(60 + wl, 60 + wl + dc))
        }
    } else if kind == RECORD_KIND_METADATA {
        if p.len() < 20 {
            is_corrupt(r, "Metadata payload too short"@)
        } else if p.len() < 20 + at32(p, 16) {
            is_corrupt(r, "Metadata text truncated"@)
        } else {
            &&& r matches ReadResult::Record(LogRecord::Metadata(m))
            &&& m.config_epoch == at64(p, 0)
            &&& m.observed_mono_ns == MonoNs(at64(p, 8))
            &&& lossy_text(m.toml_text@, p.subrange(20, 20 + at32(p, 16)))
        }
    } else if kind == RECORD_KIND_DIAGNOSTIC {
        if p.len() < 64 {
            is_corrupt(r, "Diagnostic payload too short"@)
        } else if broker != 0 && at32(p, 8) != broker {
            is_corrupt(r, msg_broker_mismatch("Diagnostic broker "@, at32(p, 8), broker))
        } else if p.len() < 64 + at32(p, 56) + at32(p, 60) {
            is_corrupt(r, "Diagnostic text truncated"@)
        } else {
            let cl = at32(p, 56) as int;
            let ml = at32(p, 60) as int;
            let df = at16(p, 14);
            &&& r matches ReadResult::Record(LogRecord::Diagnostic(d))
            &&& d.mono_ns == MonoNs(at64(p, 0))
            &&& d.broker_id == at32(p, 8)
            &&& d.severity == severity_from_code(at16(p, 12))
            &&& d.session_id == (if df & 1 != 0 {
                Some(at64(p, 16))
            } else {
                None
            })
            &&& d.sequence_range == (if df & 2 != 0 {
                Some((at64(p, 24), at64(p, 32)))
            } else {
                None
            })
            &&& d.known_count == (if df & 4 != 0 {
                Some(at64(p, 40))
            } else {
                None
            })
            &&& d.detail_value == at64(p, 48) as i64
            &&& lossy_text(d.code@, p.subrange(64, 64 + cl))
            &&& lossy_text(d.message@, p.subrange(64 + cl, 64 + cl + ml))
        }
    } else {
        is_corrupt(r, "Unknown record kind "@ + dec(kind as nat))
    }
}

/// Why the bytes `d` do not start with an acceptable file header, if
/// they do not.
pub open spec fn file_header_error(d: Seq<u8>) -> Option<Seq<char>> {
    if d.len() < FILE_HEADER_LEN {
        Some(msg_header_short())
    } else if d.subrange(0, 4) != storage_magic() {
        Some(msg_bad_magic())
    } else if at16(d, 4) != STORAGE_VERSION {
        Some("Unsupported storage version: "@ + dec(at16(d, 4) as nat))
    } else if at16(d, 6) != FILE_HEADER_LEN {
        Some("Invalid file header length: "@ + dec(at16(d, 6) as nat))
    } else {
        None
    }
}

/// What reading the record at `pos` of the file bytes `d` yields: the
/// result `r`, and the position `next` the following read starts from.
pub open spec fn read_outcome(d: Seq<u8>, pos: int, broker: BrokerId, r: ReadResult, next: int) -> bool {
    let rem = d.len() - pos;
    if rem == 0 {
        r == ReadResult::CleanEof && next == pos
    } else if rem < RECORD_ENVELOPE_LEN {
        r == ReadResult::TruncatedTail(rem as usize) && next == d.len()
    } else {
        let total = at32(d, pos) as int;
        if total < RECORD_ENVELOPE_LEN {
            is_corrupt(r, msg_total_too_small(total as nat)) && next == pos + 24
        } else if rem < total {
            r == ReadResult::TruncatedTail((total - 24) as usize) && next == d.len()
        } else {
            let stored = at32(d, pos + 16);
            let calc = spec_crc32c(
                d.subrange(pos, pos + 16) + le32(0) + d.subrange(pos + 20, pos + total),
            );
            &&& next == pos + total
            &&& if calc != stored {
                is_corrupt(r, msg_crc_mismatch(at64(d, pos + 8), stored, calc))
            } else {
                payload_outcome(
                    at16(d, pos + 4),
                    at16(d, pos + 6),
                    d.subrange(pos + 24, pos + total),
                    broker,
                    r,
                )
            }
        }
    }
}

/// Reads a binary log held in memory.
pub struct LogFileReader {
    data: Vec<u8>,
    pos: usize,
    run_id: RunId,
    file_id: u64,
    broker_id: BrokerId,
    current_index: u64,
}

impl LogFileReader {
    #[verifier::type_invariant]
    spec fn inv(self) -> bool {
        &&& self.pos <= self.data@.len()
        &&& self.current_index <= self.pos
    }

    /// All bytes of the file.
    pub closed spec fn bytes(&self) -> Seq<u8> {
        self.data@
    }

    /// Where the next read starts.
    pub closed spec fn position(&self) -> int {
        self.pos as int
    }

    /// The broker the file belongs to, as its header says.
    pub closed spec fn file_broker(&self) -> BrokerId {
        self.broker_id
    }

    /// The run id in the file header.
    pub closed spec fn spec_run_id(&self) -> RunId {
        self.run_id
    }

    /// The file id in the file header.
    pub closed spec fn spec_file_id(&self) -> u64 {
        self.file_id
    }

    /// Checks the file header at the start of `data` and positions the
    /// reader on the first record.
    pub fn new(data: Vec<u8>) -> (r: Result<Self, String>)
        ensures
            (match file_header_error(data@) {
                Some(msg) => r matches Err(e) && e@ == msg,
                None => r matches Ok(rd) && rd.bytes() == data@ && rd.position() == 56
                    && rd.spec_run_id().0@ == data@.subrange(8, 24) && rd.spec_file_id() == at64(
                    data@,
                    24,
                ) && rd.file_broker() == at32(data@, 32),
            }),
    {
        let n = data.len();
        if n < FILE_HEADER_LEN {
            return Err(string_of("Failed to read file header: failed to fill whole buffer"));
        }
        if data[0] != STORAGE_MAGIC[0] || data[1] != STORAGE_MAGIC[1] || data[2] != STORAGE_MAGIC[2]
            || data[3] != STORAGE_MAGIC[3] {
            proof {
                if data@.subrange(0, 4) == storage_magic() {
                    assert(data@.subrange(0, 4)[0] == data@[0]);
                    assert(data@.subrange(0, 4)[1] == data@[1]);
                    assert(data@.subrange(0, 4)[2] == data@[2]);
                    assert(data@.subrange(0, 4)[3] == data@[3]);
                }
            }
            return Err(string_of("Invalid file magic, expected TLOG"));
        }
        assert(data@.subrange(0, 4) =~= storage_magic());
        let version = get_u16(data.as_slice(), 4);
        if version != STORAGE_VERSION {
            let mut m = string_of("Unsupported storage version: ");
            push_dec(&mut m, version as u64);
            return Err(m);
        }
        let header_len = get_u16(data.as_slice(), 6);
        if header_len as usize != FILE_HEADER_LEN {
            let mut m = string_of("Invalid file header length: ");
            push_dec(&mut m, header_len as u64);
            return Err(m);
        }
        let mut run_id_bytes = [0u8; 16];
        let mut i: usize = 0;
        while i < 16
            invariant
                data@.len() >= 56,
                i <= 16,
                forall|k: int| 0 <= k < i ==> run_id_bytes@[k] == data@[8 + k],
            decreases 16 - i,
        {
            run_id_bytes[i] = data[8 + i];
            i = i + 1;
        }
        assert(run_id_bytes@ =~= data@.subrange(8, 24));
        let file_id = get_u64(data.as_slice(), 24);
        let broker_id = get_u32(data.as_slice(), 32);
        Ok(
            LogFileReader {
                data,
                pos: FILE_HEADER_LEN,
                run_id: RunId(run_id_bytes),
                file_id,
                broker_id,
                current_index: 0,
            },
        )
    }

    /// The run id in the file header.
    pub fn run_id(&self) -> (r: RunId)
        ensures
            r == self.spec_run_id(),
    {
        self.run_id
    }

    /// The file id in the file header.
    pub fn file_id(&self) -> (r: u64)
        ensures
            r == self.spec_file_id(),
    {
        self.file_id
    }

    /// The broker id in the file header.
    pub fn broker_id(&self) -> (r: BrokerId)
        ensures
            r == self.file_broker(),
    {
        self.broker_id
    }

    /// Reads and checks the next record.
    pub fn next_record(&mut self) -> (r: ReadResult)
        ensures
            final(self).bytes() == old(self).bytes(),
            final(self).file_broker() == old(self).file_broker(),
            final(self).spec_run_id() == old(self).spec_run_id(),
            final(self).spec_file_id() == old(self).spec_file_id(),
            read_outcome(old(self).bytes(), old(self).position(), old(self).file_broker(), r, final(self).position()),
    {
        proof {
            use_type_invariant(&*self);
        }
        let len = self.data.len();
        let pos = self.pos;
        let rem = len - pos;
        if rem == 0 {
            return ReadResult::CleanEof;
        }
        if rem < RECORD_ENVELOPE_LEN {
            self.pos = len;
            return ReadResult::TruncatedTail(rem);
        }
        let d = self.data.as_slice();
        let total = get_u32(d, pos) as usize;
        let kind = get_u16(d, pos + 4);
        let flags = get_u16(d, pos + 6);
        let record_index = get_u64(d, pos + 8);
        let stored_crc = get_u32(d, pos + 16);
        if total < RECORD_ENVELOPE_LEN {
            let mut m = string_of("total_length ");
            push_dec(&mut m, total as u64);
            push_str(&mut m, " is smaller than envelope header 24");
            self.pos = pos + RECORD_ENVELOPE_LEN;
            return ReadResult::Corrupt(m);
        }
        if rem < total {
            self.pos = len;
            return ReadResult::TruncatedTail(total - RECORD_ENVELOPE_LEN);
        }
        let mut check: Vec<u8> = Vec::new();
        check.extend_from_slice(slice_subrange(d, pos, pos + 16));
        push_u32(&mut check, 0);
        check.extend_from_slice(slice_subrange(d, pos + 20, pos + total));
        assert(check@ == old(self).bytes().subrange(pos as int, pos + 16) + le32(0)
            + old(self).bytes().subrange(pos + 20, pos + total));
        let calculated = crc32c(check.as_slice());
        let result = if calculated != stored_crc {
            let mut m = string_of("CRC32C mismatch at record ");
            push_dec(&mut m, record_index);
            push_str(&mut m, ": stored 0x");
            push_hex_padded(&mut m, stored_crc as u64, 8);
            push_str(&mut m, ", calculated 0x");
            push_hex_padded(&mut m, calculated as u64, 8);
            ReadResult::Corrupt(m)
        } else {
            let payload = slice_subrange(d, pos + RECORD_ENVELOPE_LEN, pos + total);
            decode_payload(kind, flags, payload, self.broker_id)
        };
        assert(payload_outcome(kind, flags, old(self).bytes().subrange(pos + 24, pos + total), old(self).file_broker(), result) || calculated != stored_crc);
        self.pos = pos + total;
        if let ReadResult::Record(_) = &result {
            self.current_index = self.current_index + 1;
        }
        result
    }
}

/// Decodes the payload `p` of a record of `kind`, read from a file of
/// broker `broker`.
fn decode_payload(kind: u16, flags: u16, p: &[u8], broker: BrokerId) -> (r: ReadResult)
    ensures
        payload_outcome(kind, flags, p@, broker, r),
{
    let n = p.len();
    if kind == RECORD_KIND_RAW_FRAME {
        if n < 60 {
            return ReadResult::Corrupt(string_of("RawFrame payload too short"));
        }
        let broker_id = get_u32(p, 0);
        if broker != 0 && broker_id != broker {
            let mut m = string_of("RawFrame broker ");
            push_dec(&mut m, broker_id as u64);
            push_str(&mut m, " does not match file broker ");
            push_dec(&mut m, broker as u64);
            return ReadResult::Corrupt(m);
        }
        let connection_generation = get_u64(p, 4);
        let frame_index = get_u64(p, 12);
        let rx_mono_ns = MonoNs(get_u64(p, 20));
        let rx_unix = get_u64(p, 28) as i64;
        let rx_unix_ns = if flags & 1 != 0 {
            Some(rx_unix)
        } else {
            None
        };
        let config_epoch = get_u64(p, 36);
        let analysis_segment = get_u64(p, 44);
        let wire_length = get_u32(p, 52);
        let disp_count = get_u32(p, 56);
        if (n as u64) < 60u64 + wire_length as u64 + disp_count as u64 {
            return ReadResult::Corrupt(string_of("RawFrame wire/dispositions truncated"));
        }
        let wl = wire_length as usize;
        let dc = disp_count as usize;
        let raw_wire_bytes = slice_to_vec(slice_subrange(p, 60, 60 + wl));
        let codes = slice_subrange(p, 60 + wl, 60 + wl + dc);
        let mut dispositions: Vec<SequenceDisposition> = Vec::new();
        let mut i: usize = 0;
        while i < dc
            invariant
                codes@.len() == dc,
                i <= dc,
                dispositions@ == dispositions_of(codes@.take(i as int)),
            decreases dc - i,
        {
            dispositions.push(SequenceDisposition::from_code(codes[i]));
            assert(dispositions_of(codes@.take(i + 1)) =~= dispositions_of(codes@.take(i as int)).push(
                disposition_from_code(codes@[i as int]),
            ));
            i = i + 1;
        }
        assert(codes@.take(dc as int) =~= codes@);
        ReadResult::Record(
            LogRecord::RawFrame(
                LogRawFrame {
                    broker_id,
                    connection_generation,
                    frame_index,
                    rx_mono_ns,
                    rx_unix_ns,
                    config_epoch,
                    analysis_segment,
                    raw_wire_bytes: Arc::new(raw_wire_bytes),
                    dispositions,
                },
            ),
        )
    } else if kind == RECORD_KIND_METADATA {
        if n < 20 {
            return ReadResult::Corrupt(string_of("Metadata payload too short"));
        }
        let config_epoch = get_u64(p, 0);
        let observed_mono_ns = MonoNs(get_u64(p, 8));
        let text_len = get_u32(p, 16) as usize;
        if n - 20 < text_len {
            return ReadResult::Corrupt(string_of("Metadata text truncated"));
        }
        let toml_text = string_from_utf8_lossy(slice_subrange(p, 20, 20 + text_len));
        ReadResult::Record(LogRecord::Metadata(LogMetadata { config_epoch, observed_mono_ns, toml_text }))
    } else if kind == RECORD_KIND_DIAGNOSTIC {
        if n < 64 {
            return ReadResult::Corrupt(string_of("Diagnostic payload too short"));
        }
        let mono_ns = MonoNs(get_u64(p, 0));
        let broker_id = get_u32(p, 8);
        if broker != 0 && broker_id != broker {
            let mut m = string_of("Diagnostic broker ");
            push_dec(&mut m, broker_id as u64);
            push_str(&mut m, " does not match file broker ");
            push_dec(&mut m, broker as u64);
            return ReadResult::Corrupt(m);
        }
        let severity_num = get_u16(p, 12);
        let d_flags = get_u16(p, 14);
        let session_raw = get_u64(p, 16);
        let session_id = if d_flags & 1 != 0 {
            Some(session_raw)
        } else {
            None
        };
        let first = get_u64(p, 24);
        let last = get_u64(p, 32);
        let sequence_range = if d_flags & 2 != 0 {
            Some((first, last))
        } else {
            None
        };
        let count_raw = get_u64(p, 40);
        let known_count = if d_flags & 4 != 0 {
            Some(count_raw)
        } else {
            None
        };
        let detail_value = get_u64(p, 48) as i64;
        let code_len = get_u32(p, 56);
        let msg_len = get_u32(p, 60);
        if (n as u64) < 64u64 + code_len as u64 + msg_len as u64 {
            return ReadResult::Corrupt(string_of("Diagnostic text truncated"));
        }
        let cl = code_len as usize;
        let ml = msg_len as usize;
        let code = string_from_utf8_lossy(slice_subrange(p, 64, 64 + cl));
        let message = string_from_utf8_lossy(slice_subrange(p, 64 + cl, 64 + cl + ml));
        let severity = DiagnosticSeverity::from_code(severity_num);
        ReadResult::Record(
            LogRecord::Diagnostic(
                Diagnostic {
                    code,
                    severity,
                    broker_id,
                    session_id,
                    mono_ns,
                    sequence_range,
                    known_count,
                    detail_value,
                    message,
                },
            ),
        )
    } else {
        let mut m = string_of("Unknown record kind ");
        push_dec(&mut m, kind as u64);
        ReadResult::Corrupt(m)
    }
}

// ---------------------------------------------------------------------
// Laws
// ---------------------------------------------------------------------

/// `a` and `b` hold the same record.
pub open spec fn same_record(a: LogRecord, b: LogRecord) -> bool {
    match a {
        LogRecord::RawFrame(x) => b matches LogRecord::RawFrame(y) && x.broker_id == y.broker_id
            && x.connection_generation == y.connection_generation && x.frame_index
            == y.frame_index && x.rx_mono_ns == y.rx_mono_ns && x.rx_unix_ns == y.rx_unix_ns
            && x.config_epoch == y.config_epoch && x.analysis_segment == y.analysis_segment
            && x.raw_wire_bytes@ == y.raw_wire_bytes@ && x.dispositions@ == y.dispositions@,
        LogRecord::Metadata(x) => b matches LogRecord::Metadata(y) && x.config_epoch
            == y.config_epoch && x.observed_mono_ns == y.observed_mono_ns && x.toml_text@
            == y.toml_text@,
        LogRecord::Diagnostic(x) => b matches LogRecord::Diagnostic(y) && x.code@ == y.code@
            && x.severity == y.severity && x.broker_id == y.broker_id && x.session_id
            == y.session_id && x.mono_ns == y.mono_ns && x.sequence_range == y.sequence_range
            && x.known_count == y.known_count && x.detail_value == y.detail_value && x.message@
            == y.message@,
    }
}

/// A record may stand in the file of `broker`: configuration metadata
/// anywhere, other records in the file of their own broker or in a file
/// of the whole run.
pub open spec fn record_belongs(r: LogRecord, broker: BrokerId) -> bool {
    r is Metadata || broker == 0 || crate::storage::logger::spec_log_broker_id(r) == broker
}

proof fn lemma_flag_bits(a: u16, b: u16, c: u16)
    requires
        a == 0 || a == 1,
        b == 0 || b == 2,
        c == 0 || c == 4,
    ensures
        ((a + b + c) as u16) & 1 != 0 <==> a == 1,
        ((a + b + c) as u16) & 2 != 0 <==> b == 2,
        ((a + b + c) as u16) & 4 != 0 <==> c == 4,
{
    assert(((a + b + c) as u16) & 1 != 0 <==> a == 1) by (bit_vector)
        requires
            a == 0 || a == 1,
            b == 0 || b == 2,
            c == 0 || c == 4,
    ;
    assert(((a + b + c) as u16) & 2 != 0 <==> b == 2) by (bit_vector)
        requires
            a == 0 || a == 1,
            b == 0 || b == 2,
            c == 0 || c == 4,
    ;
    assert(((a + b + c) as u16) & 4 != 0 <==> c == 4) by (bit_vector)
        requires
            a == 0 || a == 1,
            b == 0 || b == 2,
            c == 0 || c == 4,
    ;
}

proof fn lemma_raw_frame_payload(raw: LogRawFrame)
    requires
        raw_frame_payload(raw).len() <= u32::MAX,
    ensures
        ({
            let p = raw_frame_payload(raw);
            let wl = raw.raw_wire_bytes@.len() as int;
            let dc = raw.dispositions@.len() as int;
            &&& p.len() == 60 + wl + dc
            &&& at32(p, 0) == raw.broker_id
            &&& at64(p, 4) == raw.connection_generation
            &&& at64(p, 12) == raw.frame_index
            &&& at64(p, 20) == raw.rx_mono_ns.0
            &&& at64(p, 28) as i64 == (match raw.rx_unix_ns {
                Some(v) => v,
                None => 0,
            })
            &&& at64(p, 36) == raw.config_epoch
            &&& at64(p, 44) == raw.analysis_segment
            &&& at32(p, 52) == wl
            &&& at32(p, 56) == dc
            &&& p.subrange(60, 60 + wl) == raw.raw_wire_bytes@
            &&& dispositions_of(p.subrange(60 + wl, 60 + wl + dc)) == raw.dispositions@
        }),
{
    let p = raw_frame_payload(raw);
    let wire = raw.raw_wire_bytes@;
    let ds = raw.dispositions@;
    let wl = wire.len() as int;
    let dc = ds.len() as int;
    let unix: i64 = match raw.rx_unix_ns {
        Some(v) => v,
        None => 0,
    };
    assert(disposition_bytes(ds).len() == dc);
    assert(p.subrange(0, 4) =~= le32(raw.broker_id));
    assert(p.subrange(4, 12) =~= le64(raw.connection_generation));
    assert(p.subrange(12, 20) =~= le64(raw.frame_index));
    assert(p.subrange(20, 28) =~= le64(raw.rx_mono_ns.0));
    assert(p.subrange(28, 36) =~= le64(unix as u64));
    assert(p.subrange(36, 44) =~= le64(raw.config_epoch));
    assert(p.subrange(44, 52) =~= le64(raw.analysis_segment));
    assert(p.subrange(52, 56) =~= le32(wl as u32));
    assert(p.subrange(56, 60) =~= le32(dc as u32));
    assert(p.subrange(60, 60 + wl) =~= wire);
    assert(p.subrange(60 + wl, 60 + wl + dc) =~= disposition_bytes(ds));
    assert(dispositions_of(disposition_bytes(ds)) =~= ds) by {
        assert forall|i: int| 0 <= i < dc implies #[trigger] dispositions_of(disposition_bytes(ds))[i]
            == ds[i] by {
            let d = ds[i];
            assert(disposition_from_code(crate::contracts::types::disposition_code(d)) == d) by {
                match d {
                    SequenceDisposition::New => {},
                    SequenceDisposition::DuplicateExact => {},
                    SequenceDisposition::IdentityConflict => {},
                    SequenceDisposition::OutOfOrderUnverified => {},
                }
            }
        }
    }
}

proof fn lemma_metadata_payload(meta: LogMetadata)
    requires
        metadata_payload(meta).len() <= u32::MAX,
    ensures
        ({
            let p = metadata_payload(meta);
            let text = encode_utf8(meta.toml_text@);
            &&& p.len() == 20 + text.len()
            &&& at64(p, 0) == meta.config_epoch
            &&& at64(p, 8) == meta.observed_mono_ns.0
            &&& at32(p, 16) == text.len()
            &&& p.subrange(20, 20 + text.len() as int) == text
        }),
{
    let p = metadata_payload(meta);
    let text = encode_utf8(meta.toml_text@);
    assert(p.subrange(0, 8) =~= le64(meta.config_epoch));
    assert(p.subrange(8, 16) =~= le64(meta.observed_mono_ns.0));
    assert(p.subrange(16, 20) =~= le32(text.len() as u32));
    assert(p.subrange(20, 20 + text.len() as int) =~= text);
}

proof fn lemma_diagnostic_payload(d: Diagnostic)
    requires
        diagnostic_payload(d).len() <= u32::MAX,
    ensures
        ({
            let p = diagnostic_payload(d);
            let code = encode_utf8(d.code@);
            let msg = encode_utf8(d.message@);
            let cl = code.len() as int;
            let ml = msg.len() as int;
            let range = match d.sequence_range {
                Some(r) => r,
                None => (0u64, 0u64),
            };
            &&& p.len() == 64 + cl + ml
            &&& at64(p, 0) == d.mono_ns.0
            &&& at32(p, 8) == d.broker_id
            &&& at16(p, 12) == crate::contracts::types::severity_code(d.severity)
            &&& at16(p, 14) == diagnostic_flags(d)
            &&& at64(p, 16) == (match d.session_id {
                Some(s) => s,
                None => 0,
            })
            &&& at64(p, 24) == range.0
            &&& at64(p, 32) == range.1
            &&& at64(p, 40) == (match d.known_count {
                Some(c) => c,
                None => 0,
            })
            &&& at64(p, 48) as i64 == d.detail_value
            &&& at32(p, 56) == cl
            &&& at32(p, 60) == ml
            &&& p.subrange(64, 64 + cl) == code
            &&& p.subrange(64 + cl, 64 + cl + ml) == msg
        }),
{
    let p = diagnostic_payload(d);
    let code = encode_utf8(d.code@);
    let msg = encode_utf8(d.message@);
    let cl = code.len() as int;
    let ml = msg.len() as int;
    let range = match d.sequence_range {
        Some(r) => r,
        None => (0u64, 0u64),
    };
    let session: u64 = match d.session_id {
        Some(s) => s,
        None => 0,
    };
    let count: u64 = match d.known_count {
        Some(c) => c,
        None => 0,
    };
    assert(p.subrange(0, 8) =~= le64(d.mono_ns.0));
    assert(p.subrange(8, 12) =~= le32(d.broker_id));
    assert(p.subrange(12, 14) =~= le16(crate::contracts::types::severity_code(d.severity)));
    assert(p.subrange(14, 16) =~= le16(diagnostic_flags(d)));
    assert(p.subrange(16, 24) =~= le64(session));
    assert(p.subrange(24, 32) =~= le64(range.0));
    assert(p.subrange(32, 40) =~= le64(range.1));
    assert(p.subrange(40, 48) =~= le64(count));
    assert(p.subrange(48, 56) =~= le64(d.detail_value as u64));
    assert(p.subrange(56, 60) =~= le32(cl as u32));
    assert(p.subrange(60, 64) =~= le32(ml as u32));
    assert(p.subrange(64, 64 + cl) =~= code);
    assert(p.subrange(64 + cl, 64 + cl + ml) =~= msg);
}

proof fn lemma_subrange_of(d: Seq<u8>, pos: int, n: int, a: int, c: int)
    requires
        0 <= pos,
        0 <= a <= c <= n,
        pos + n <= d.len(),
    ensures
        d.subrange(pos + a, pos + c) == d.subrange(pos, pos + n).subrange(a, c),
{
    assert(d.subrange(pos + a, pos + c) =~= d.subrange(pos, pos + n).subrange(a, c));
}

proof fn lemma_record_bytes_fields(rec: LogRecord, index: u64)
    requires
        record_fits(rec),
    ensures
        ({
            let p = record_payload(rec);
            let total = (RECORD_ENVELOPE_LEN + p.len()) as u32;
            let crc = spec_crc32c(
                envelope_bytes(total, record_kind(rec), record_flags(rec), index, 0) + p,
            );
            let b = record_bytes(rec, index);
            &&& b.len() == total
            &&& b.subrange(0, 4) == le32(total)
            &&& b.subrange(4, 6) == le16(record_kind(rec))
            &&& b.subrange(6, 8) == le16(record_flags(rec))
            &&& b.subrange(8, 16) == le64(index)
            &&& b.subrange(16, 20) == le32(crc)
            &&& b.subrange(0, 16) + le32(0) + b.subrange(20, total as int) == envelope_bytes(
                total,
                record_kind(rec),
                record_flags(rec),
                index,
                0,
            ) + p
            &&& b.subrange(24, total as int) == p
        }),
{
    let p = record_payload(rec);
    let total = (RECORD_ENVELOPE_LEN + p.len()) as u32;
    let kind = record_kind(rec);
    let flags = record_flags(rec);
    let crc = spec_crc32c(envelope_bytes(total, kind, flags, index, 0) + p);
    let b = record_bytes(rec, index);
    assert(b.subrange(0, 4) =~= le32(total));
    assert(b.subrange(4, 6) =~= le16(kind));
    assert(b.subrange(6, 8) =~= le16(flags));
    assert(b.subrange(8, 16) =~= le64(index));
    assert(b.subrange(16, 20) =~= le32(crc));
    assert(b.subrange(0, 16) + le32(0) + b.subrange(20, total as int) =~= envelope_bytes(
        total,
        kind,
        flags,
        index,
        0,
    ) + p);
    assert(b.subrange(24, total as int) =~= p);
}

/// A record written by the logger reads back as the same record, and the
/// next read starts right after it.
pub proof fn lemma_read_written_record(
    rec: LogRecord,
    index: u64,
    d: Seq<u8>,
    pos: int,
    broker: BrokerId,
    res: ReadResult,
    next: int,
)
    requires
        record_fits(rec),
        record_belongs(rec, broker),
        0 <= pos,
        pos + record_bytes(rec, index).len() <= d.len(),
        d.subrange(pos, pos + record_bytes(rec, index).len()) == record_bytes(rec, index),
        read_outcome(d, pos, broker, res, next),
    ensures
        res matches ReadResult::Record(got) && same_record(got, rec),
        next == pos + record_bytes(rec, index).len(),
{
    let p = record_payload(rec);
    let total = (RECORD_ENVELOPE_LEN + p.len()) as u32;
    let kind = record_kind(rec);
    let flags = record_flags(rec);
    let crc = spec_crc32c(envelope_bytes(total, kind, flags, index, 0) + p);
    let b = record_bytes(rec, index);
    lemma_record_bytes_fields(rec, index);
    lemma_subrange_of(d, pos, total as int, 0, 4);
    lemma_subrange_of(d, pos, total as int, 4, 6);
    lemma_subrange_of(d, pos, total as int, 6, 8);
    lemma_subrange_of(d, pos, total as int, 8, 16);
    lemma_subrange_of(d, pos, total as int, 16, 20);
    lemma_subrange_of(d, pos, total as int, 0, 16);
    lemma_subrange_of(d, pos, total as int, 20, total as int);
    lemma_subrange_of(d, pos, total as int, 24, total as int);
    match rec {
        LogRecord::RawFrame(raw) => {
            lemma_raw_frame_payload(raw);
            assert(1u16 & 1 != 0) by (bit_vector);
            assert(0u16 & 1 == 0) by (bit_vector);
        },
        LogRecord::Metadata(meta) => {
            lemma_metadata_payload(meta);
            encode_utf8_valid_utf8(meta.toml_text@);
            encode_utf8_decode_utf8(meta.toml_text@);
        },
        LogRecord::Diagnostic(dg) => {
            lemma_diagnostic_payload(dg);
            encode_utf8_valid_utf8(dg.code@);
            encode_utf8_decode_utf8(dg.code@);
            encode_utf8_valid_utf8(dg.message@);
            encode_utf8_decode_utf8(dg.message@);
            lemma_flag_bits(
                if dg.session_id is Some { 1 } else { 0 },
                if dg.sequence_range is Some { 2 } else { 0 },
                if dg.known_count is Some { 4 } else { 0 },
            );
            assert(severity_from_code(crate::contracts::types::severity_code(dg.severity))
                == dg.severity) by {
                match dg.severity {
                    DiagnosticSeverity::Error => {},
                    DiagnosticSeverity::Warn => {},
                    DiagnosticSeverity::Info => {},
                    DiagnosticSeverity::Debug => {},
                    DiagnosticSeverity::Trace => {},
                }
            }
        },
    }
}

/// A file header the logger wrote is accepted by the reader, which reads
/// back the run id, file id and broker id written into it; the header
/// starts with `TLOG`, version 1 and its length 56, and holds the creation
/// time after a zero word, then a zero reserved field.
pub proof fn lemma_read_file_header(run_id: RunId, file_id: u64, broker_id: BrokerId, created_ns: i64, rest: Seq<u8>)
    ensures
        ({
            let d = file_header_bytes(run_id, file_id, broker_id, created_ns) + rest;
            &&& file_header_error(d) is None
            &&& d.subrange(0, 4) == storage_magic()
            &&& at16(d, 4) == 1
            &&& at16(d, 6) == 56
            &&& d.subrange(8, 24) == run_id.0@
            &&& at64(d, 24) == file_id
            &&& at32(d, 32) == broker_id
            &&& at32(d, 36) == 0
            &&& at64(d, 40) as i64 == created_ns
            &&& at64(d, 48) == 0
        }),
{
    let d = file_header_bytes(run_id, file_id, broker_id, created_ns) + rest;
    assert(run_id.0@.len() == 16);
    assert(d.subrange(0, 4) =~= storage_magic());
    assert(d.subrange(4, 6) =~= le16(STORAGE_VERSION));
    assert(d.subrange(6, 8) =~= le16(56u16));
    assert(d.subrange(8, 24) =~= run_id.0@);
    assert(d.subrange(24, 32) =~= le64(file_id));
    assert(d.subrange(32, 36) =~= le32(broker_id));
    assert(d.subrange(36, 40) =~= le32(0));
    assert(d.subrange(40, 48) =~= le_i64(created_ns));
    assert(d.subrange(48, 56) =~= le64(0));
}

/// At the end of the file the reader reports a clean end, and stays there.
pub proof fn lemma_read_at_end(d: Seq<u8>, broker: BrokerId, res: ReadResult, next: int)
    requires
        read_outcome(d, d.len() as int, broker, res, next),
    ensures
        res == ReadResult::CleanEof,
        next == d.len(),
{
}

} // verus!
