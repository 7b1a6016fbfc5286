//! Shared data types, identifiers and wire constants.

use std::sync::Arc;
use vstd::prelude::*;

verus! {

pub type BrokerId = u32;

pub type SessionId = u64;

pub type Sequence = u64;

pub type AnalysisSegmentId = u64;

/// Identity of one source tick: broker, EA session and sequence number.
#[derive(Debug, Clone, Copy, PartialEq, Eq, Hash, Structural)]
pub struct TickId {
    pub broker_id: BrokerId,
    pub session_id: SessionId,
    pub sequence: Sequence,
}

/// Sixteen opaque bytes identifying one application run.
#[derive(Debug, Clone, Copy, PartialEq, Eq, Hash)]
pub struct RunId(pub [u8; 16]);

/// Nanoseconds on the process-local monotonic clock.
#[derive(Debug, Clone, Copy, PartialEq, Eq, PartialOrd, Ord, Hash, Structural)]
pub struct MonoNs(pub u64);

/// Milliseconds since the Unix epoch, UTC.
#[derive(Debug, Clone, Copy, PartialEq, Eq, PartialOrd, Ord, Hash, Structural)]
pub struct UtcMs(pub i64);

/// Milliseconds on the broker server clock.
#[derive(Debug, Clone, Copy, PartialEq, Eq, PartialOrd, Ord, Hash, Structural)]
pub struct BrokerMs(pub i64);

/// Microseconds elapsed inside the Expert Advisor.
#[derive(Debug, Clone, Copy, PartialEq, Eq, PartialOrd, Ord, Hash, Structural)]
pub struct EaUs(pub u64);

/// One sample of the run clock.
#[derive(Debug, Clone, Copy, PartialEq, Eq)]
pub struct ClockReading {
    pub run_id: RunId,
    pub mono_ns: MonoNs,
    pub unix_ns: Option<i64>,
}

/// One 72-byte tick record of the wire protocol. The IEEE-754 binary64
/// fields are held as their bit patterns, so that every bit, NaN payloads
/// included, travels unchanged.
#[derive(Debug, Clone, Copy, PartialEq, Eq, Structural)]
pub struct TickRecord {
    pub sequence: Sequence,
    pub broker_time_msc: i64,
    pub ea_elapsed_us: u64,
    pub bid_bits: u64,
    pub ask_bits: u64,
    pub last_bits: u64,
    pub volume: u64,
    pub volume_real_bits: u64,
    pub flags: u32,
    pub reserved: u32,
}

/// Frame magic: the bytes `K C I T` read as a little-endian `u32`.
pub const MAGIC_TICK: u32 = 0x5449434B;

pub const PROTOCOL_VERSION: u16 = 1;

pub const HEADER_LENGTH: u16 = 40;

pub const TICK_RECORD_LENGTH: usize = 72;

pub const HEARTBEAT_PAYLOAD_LENGTH: usize = 36;

pub const BATCH_ACK_PAYLOAD_LENGTH: usize = 8;

pub const STATUS_PAYLOAD_LENGTH: usize = 48;

/// Largest payload a frame may declare (1 MiB).
pub const MAX_PAYLOAD_LENGTH: u32 = 1_048_576;

pub const MSG_TYPE_TICK_BATCH: u16 = 1;

pub const MSG_TYPE_HEARTBEAT: u16 = 2;

pub const MSG_TYPE_BATCH_ACK: u16 = 3;

pub const MSG_TYPE_STATUS: u16 = 4;

pub const HEADER_FLAG_WARMUP: u16 = 1;

pub const HB_FLAG_HAS_LAST_TICK: u16 = 2;

pub const HB_FLAG_HAS_OFFSET_SAMPLE: u16 = 4;

pub const STATUS_FLAG_HAS_SEQUENCE_RANGE: u32 = 1;

pub const STATUS_FLAG_HAS_EXACT_COUNT: u32 = 2;

pub const PHASE_WARMING: u16 = 1;

pub const PHASE_LIVE: u16 = 2;

pub const STATUS_CODE_PHASE: u16 = 1;

pub const STATUS_CODE_TICK_BACKLOG: u16 = 2;

pub const STATUS_CODE_CURSOR_BLOCKED: u16 = 3;

pub const STATUS_CODE_TRANSPORT_FAULT: u16 = 4;

pub const STATUS_CODE_DATA_LOSS: u16 = 5;

pub const STATUS_CODE_UNCONFIRMED: u16 = 6;

pub const STATUS_CODE_RECOVERY: u16 = 7;

/// The 40-byte frame header.
#[derive(Debug, Clone, Copy, PartialEq, Eq, Structural)]
pub struct Header {
    pub magic: u32,
    pub protocol_version: u16,
    pub message_type: u16,
    pub header_length: u16,
    pub header_flags: u16,
    pub broker_id: BrokerId,
    pub session_id: SessionId,
    pub sequence_start: Sequence,
    pub tick_count: u32,
    pub payload_length: u32,
}

#[derive(Debug, Clone, Copy, PartialEq, Eq, Structural)]
pub struct HeartbeatPayload {
    pub session_id: SessionId,
    pub last_sequence: Sequence,
    pub last_tick_time_msc: i64,
    pub server_utc_offset_sec: i32,
    pub heartbeat_elapsed_us: u64,
}

#[derive(Debug, Clone, Copy, PartialEq, Eq, Structural)]
pub struct BatchAckPayload {
    pub sequence_end: Sequence,
}

#[derive(Debug, Clone, Copy, PartialEq, Eq, Structural)]
pub struct StatusPayload {
    pub status_code: u16,
    pub phase: u16,
    pub detail_flags: u32,
    pub sequence_first: Sequence,
    pub sequence_last: Sequence,
    pub affected_count: u64,
    pub ea_elapsed_us: u64,
    pub detail_value: i64,
}

#[derive(Debug, Clone, PartialEq)]
pub enum FramePayload {
    TickBatch(Vec<TickRecord>),
    Heartbeat(HeartbeatPayload),
    BatchAck(BatchAckPayload),
    Status(StatusPayload),
}

#[derive(Debug, Clone, PartialEq)]
pub struct Frame {
    pub header: Header,
    pub payload: FramePayload,
}

/// A decoded frame together with how and when it was received.
#[derive(Debug, Clone, PartialEq)]
pub struct ReceivedFrame {
    pub frame: Frame,
    pub raw_wire_bytes: Arc<Vec<u8>>,
    pub run_id: RunId,
    pub rx_mono_ns: MonoNs,
    pub rx_unix_ns: Option<i64>,
    pub connection_generation: u64,
    pub frame_index: u64,
}

/// One item handed from a receiver to the engine.
#[derive(Debug, Clone, PartialEq)]
pub enum IngressItem {
    Connected { broker_id: BrokerId, generation: u64, connected_at_mono: MonoNs },
    Frame(ReceivedFrame),
    Progress { broker_id: BrokerId, watermark_ns: MonoNs },
    End { broker_id: BrokerId, generation: u64, reason: String },
}

/// How a source sequence number relates to those already seen.
#[derive(Debug, Clone, Copy, PartialEq, Eq, Structural)]
pub enum SequenceDisposition {
    New,
    DuplicateExact,
    IdentityConflict,
    OutOfOrderUnverified,
}

/// Spec of the storage code of a disposition.
pub open spec fn disposition_code(d: SequenceDisposition) -> u8 {
    match d {
        SequenceDisposition::New => 0,
        SequenceDisposition::DuplicateExact => 1,
        SequenceDisposition::IdentityConflict => 2,
        SequenceDisposition::OutOfOrderUnverified => 3,
    }
}

/// Spec of the disposition a stored code stands for; unknown codes read as
/// `OutOfOrderUnverified`.
pub open spec fn disposition_from_code(b: u8) -> SequenceDisposition {
    if b == 0 {
        SequenceDisposition::New
    } else if b == 1 {
        SequenceDisposition::DuplicateExact
    } else if b == 2 {
        SequenceDisposition::IdentityConflict
    } else {
        SequenceDisposition::OutOfOrderUnverified
    }
}

impl SequenceDisposition {
    /// The storage code of this disposition.
    pub fn code(&self) -> (r: u8)
        ensures
            r == disposition_code(*self),
    {
        match self {
            SequenceDisposition::New => 0,
            SequenceDisposition::DuplicateExact => 1,
            SequenceDisposition::IdentityConflict => 2,
            SequenceDisposition::OutOfOrderUnverified => 3,
        }
    }

    /// The disposition a stored code stands for.
    pub fn from_code(b: u8) -> (r: SequenceDisposition)
        ensures
            r == disposition_from_code(b),
    {
        if b == 0 {
            SequenceDisposition::New
        } else if b == 1 {
            SequenceDisposition::DuplicateExact
        } else if b == 2 {
            SequenceDisposition::IdentityConflict
        } else {
            SequenceDisposition::OutOfOrderUnverified
        }
    }
}

#[derive(Debug, Clone, Copy, PartialEq)]
pub struct ObservedTick {
    pub tick_id: TickId,
    pub record: TickRecord,
    pub rx_mono_ns: MonoNs,
    pub rx_unix_ns: Option<i64>,
    pub connection_generation: u64,
    pub frame_index: u64,
    pub is_warmup: bool,
    pub segment_id: AnalysisSegmentId,
    pub disposition: SequenceDisposition,
}

#[derive(Debug, Clone, Copy, PartialEq)]
pub struct NormalizedTick {
    pub observed: ObservedTick,
    pub utc_ms: UtcMs,
    pub normalization_epoch: u64,
}

#[derive(Debug, Clone, Copy, PartialEq, Eq, Structural)]
pub enum ConnectionState {
    Disconnected,
    Connecting,
    Connected,
}

#[derive(Debug, Clone, Copy, PartialEq, Eq, Structural)]
pub enum FreshnessState {
    Unknown,
    Live,
    Stale,
}

#[derive(Debug, Clone, Copy, PartialEq, Eq, Structural)]
pub enum HeartbeatState {
    Unknown,
    Healthy,
    Timeout,
}

#[derive(Debug, Clone, Copy, PartialEq, Eq, Structural)]
pub enum PhaseState {
    Unknown,
    Warming,
    Live,
}

#[derive(Debug, Clone, Copy, PartialEq, Eq, Structural)]
pub struct OverloadFlags {
    pub receiver: bool,
    pub engine: bool,
    pub logger: bool,
    pub analysis: bool,
}

impl Default for OverloadFlags {
    fn default() -> (r: Self)
        ensures
            !r.receiver && !r.engine && !r.logger && !r.analysis,
    {
        OverloadFlags { receiver: false, engine: false, logger: false, analysis: false }
    }
}

#[derive(Debug, Clone, Copy, PartialEq, Eq, Structural)]
pub enum IntegrityState {
    Complete,
    PrefixUnobserved,
    Gap,
    Unconfirmed,
    DataLoss,
}

#[derive(Debug, Clone, Copy, PartialEq, Eq, Structural)]
pub enum NormalizationState {
    Unverified,
    Verified,
    Discontinuity,
}

/// Observed health of one broker feed.
#[derive(Debug, Clone, Copy, PartialEq, Eq, Structural)]
pub struct HealthState {
    pub broker_id: BrokerId,
    pub connection: ConnectionState,
    pub data_freshness: FreshnessState,
    pub heartbeat: HeartbeatState,
    pub phase: PhaseState,
    pub overload: OverloadFlags,
    pub integrity: IntegrityState,
    pub normalization: NormalizationState,
    pub last_live_tick_rx_mono: Option<MonoNs>,
    pub last_heartbeat_rx_mono: Option<MonoNs>,
    pub total_ticks_received: u64,
    pub total_frames_received: u64,
}

/// The health of a feed about which nothing has been observed yet.
pub open spec fn initial_health() -> HealthState {
    HealthState {
        broker_id: 0,
        connection: ConnectionState::Disconnected,
        data_freshness: FreshnessState::Unknown,
        heartbeat: HeartbeatState::Unknown,
        phase: PhaseState::Unknown,
        overload: OverloadFlags { receiver: false, engine: false, logger: false, analysis: false },
        integrity: IntegrityState::Complete,
        normalization: NormalizationState::Unverified,
        last_live_tick_rx_mono: None,
        last_heartbeat_rx_mono: None,
        total_ticks_received: 0,
        total_frames_received: 0,
    }
}

impl Default for HealthState {
    fn default() -> (r: Self)
        ensures
            r == initial_health(),
    {
        HealthState {
            broker_id: 0,
            connection: ConnectionState::Disconnected,
            data_freshness: FreshnessState::Unknown,
            heartbeat: HeartbeatState::Unknown,
            phase: PhaseState::Unknown,
            overload: OverloadFlags::default(),
            integrity: IntegrityState::Complete,
            normalization: NormalizationState::Unverified,
            last_live_tick_rx_mono: None,
            last_heartbeat_rx_mono: None,
            total_ticks_received: 0,
            total_frames_received: 0,
        }
    }
}

#[derive(Debug, Clone, Copy, PartialEq, Eq, Structural)]
pub enum DiagnosticSeverity {
    Error,
    Warn,
    Info,
    Debug,
    Trace,
}

/// Spec of the storage code of a severity.
pub open spec fn severity_code(s: DiagnosticSeverity) -> u16 {
    match s {
        DiagnosticSeverity::Error => 1,
        DiagnosticSeverity::Warn => 2,
        DiagnosticSeverity::Info => 3,
        DiagnosticSeverity::Debug => 4,
        DiagnosticSeverity::Trace => 5,
    }
}

/// Spec of the severity a stored code stands for; unknown codes read as
/// `Trace`.
pub open spec fn severity_from_code(n: u16) -> DiagnosticSeverity {
    if n == 1 {
        DiagnosticSeverity::Error
    } else if n == 2 {
        DiagnosticSeverity::Warn
    } else if n == 3 {
        DiagnosticSeverity::Info
    } else if n == 4 {
        DiagnosticSeverity::Debug
    } else {
        DiagnosticSeverity::Trace
    }
}

impl DiagnosticSeverity {
    /// The storage code of this severity.
    pub fn code(&self) -> (r: u16)
        ensures
            r == severity_code(*self),
    {
        match self {
            DiagnosticSeverity::Error => 1,
            DiagnosticSeverity::Warn => 2,
            DiagnosticSeverity::Info => 3,
            DiagnosticSeverity::Debug => 4,
            DiagnosticSeverity::Trace => 5,
        }
    }

    /// The severity a stored code stands for.
    pub fn from_code(n: u16) -> (r: DiagnosticSeverity)
        ensures
            r == severity_from_code(n),
    {
        if n == 1 {
            DiagnosticSeverity::Error
        } else if n == 2 {
            DiagnosticSeverity::Warn
        } else if n == 3 {
            DiagnosticSeverity::Info
        } else if n == 4 {
            DiagnosticSeverity::Debug
        } else {
            DiagnosticSeverity::Trace
        }
    }
}

#[derive(Debug, Clone, PartialEq, Eq)]
pub struct Diagnostic {
    pub code: String,
    pub severity: DiagnosticSeverity,
    pub broker_id: BrokerId,
    pub session_id: Option<SessionId>,
    pub mono_ns: MonoNs,
    pub sequence_range: Option<(Sequence, Sequence)>,
    pub known_count: Option<u64>,
    pub detail_value: i64,
    pub message: String,
}

#[derive(Debug, Clone, PartialEq, Eq)]
pub struct LogRawFrame {
    pub broker_id: BrokerId,
    pub connection_generation: u64,
    pub frame_index: u64,
    pub rx_mono_ns: MonoNs,
    pub rx_unix_ns: Option<i64>,
    pub config_epoch: u64,
    pub analysis_segment: AnalysisSegmentId,
    pub raw_wire_bytes: Arc<Vec<u8>>,
    pub dispositions: Vec<SequenceDisposition>,
}

#[derive(Debug, Clone, PartialEq, Eq)]
pub struct LogMetadata {
    pub config_epoch: u64,
    pub observed_mono_ns: MonoNs,
    pub toml_text: String,
}

#[derive(Debug, Clone, PartialEq, Eq)]
pub enum LogRecord {
    RawFrame(LogRawFrame),
    Metadata(LogMetadata),
    Diagnostic(Diagnostic),
}

impl MonoNs {
    /// `self - other`, or zero where `other` is later.
    pub fn saturating_sub(self, other: MonoNs) -> (r: MonoNs)
        ensures
            r.0 == (if self.0 >= other.0 { self.0 - other.0 } else { 0 }),
    {
        MonoNs(self.0.saturating_sub(other.0))
    }
}

/// The broker an ingress item belongs to.
pub open spec fn ingress_broker(item: IngressItem) -> BrokerId {
    match item {
        IngressItem::Connected { broker_id, .. } => broker_id,
        IngressItem::Frame(rf) => rf.frame.header.broker_id,
        IngressItem::Progress { broker_id, .. } => broker_id,
        IngressItem::End { broker_id, .. } => broker_id,
    }
}

impl IngressItem {
    /// The broker this item belongs to.
    pub fn broker_id(&self) -> (r: BrokerId)
        ensures
            r == ingress_broker(*self),
    {
        match self {
            IngressItem::Connected { broker_id, .. } => *broker_id,
            IngressItem::Frame(rf) => rf.frame.header.broker_id,
            IngressItem::Progress { broker_id, .. } => *broker_id,
            IngressItem::End { broker_id, .. } => *broker_id,
        }
    }
}

/// The run identifier made of the 128-bit nanosecond count `n`: its low and
/// high 64-bit halves, each little-endian.
pub open spec fn run_id_bytes(n: u128) -> Seq<u8> {
    crate::contracts::le_bytes::le64(n as u64) + crate::contracts::le_bytes::le64((n >> 64) as u64)
}

/// Nanoseconds since the Unix epoch on the system clock (zero before it).
#[verifier::external_body]
pub(crate) fn system_time_unix_nanos() -> (r: u128) {
    std::time::SystemTime::now().duration_since(std::time::UNIX_EPOCH).unwrap_or_default().as_nanos()
}

impl RunId {
    /// A run identifier taken from the current system time.
    pub fn new_random() -> (r: RunId)
        ensures
            exists|n: u128| r.0@ == run_id_bytes(n),
    {
        broadcast use crate::contracts::le_bytes::group_le_bytes;

        let nanos = system_time_unix_nanos();
        let low = vstd::bytes::u64_to_le_bytes(nanos as u64);
        let high = vstd::bytes::u64_to_le_bytes((nanos >> 64) as u64);
        let mut bytes = [0u8; 16];
        let mut i: usize = 0;
        while i < 8
            invariant
                0 <= i <= 8,
                low@ == crate::contracts::le_bytes::le64(nanos as u64),
                high@ == crate::contracts::le_bytes::le64((nanos >> 64) as u64),
                low@.len() == 8,
                high@.len() == 8,
                forall|k: int| 0 <= k < i ==> bytes@[k] == low@[k] && bytes@[k + 8] == high@[k],
            decreases 8 - i,
        {
            bytes[i] = low[i];
            bytes[i + 8] = high[i];
            i = i + 1;
        }
        assert(bytes@ =~= run_id_bytes(nanos));
        RunId(bytes)
    }
}

} // verus!
