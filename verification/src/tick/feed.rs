//! What the tick engine does with each frame of one broker's feed: the
//! sequence ledger, the feed's health, the candles and the gap diagnostics.
//! The ticks it accepts are handed back for the price analytics.

use crate::contracts::config::{f64_is_nan, BrokerConfig};
use crate::contracts::models::CandleSlot;
use crate::contracts::types::{
    BrokerId, ConnectionState, Diagnostic, DiagnosticSeverity, FramePayload, FreshnessState,
    HealthState, HeartbeatState, IntegrityState, MonoNs, NormalizationState, ObservedTick,
    PhaseState, ReceivedFrame, Sequence, SequenceDisposition, SessionId, TickId, TickRecord, UtcMs,
    HEADER_FLAG_WARMUP, PHASE_WARMING, initial_health,
};
use crate::tick::candle::{counts_below, lemma_periods_step_counts, periods_step, slot_fits, slot_fits_exec, quote_invalid, CandleBook, SlotKey};
use crate::tick::engine::{
    keep_recent_diagnostics, ledger_run, ledger_session, sequences_of, DiagnosticLog, LedgerView,
    SequenceLedger, MAX_DIAGNOSTICS,
};
use crate::tick::normalize::{normalize_tick, normalized_time};
use crate::text::string_of;
use vstd::prelude::*;

verus! {

/// The binary64 with bit pattern `b` is finite: neither infinite nor NaN.
pub open spec fn f64_finite(b: u64) -> bool {
    (b >> 52) & 0x7FF != 0x7FF
}

/// A quote fit for analysis: both sides finite and positive, the ask not
/// below the bid. For positive binary64 numbers the order of the numbers is
/// that of their bit patterns.
pub open spec fn quote_valid(r: TickRecord) -> bool {
    &&& f64_finite(r.bid_bits)
    &&& f64_finite(r.ask_bits)
    &&& r.bid_bits >> 63 == 0 && r.bid_bits != 0
    &&& r.ask_bits >> 63 == 0 && r.ask_bits != 0
    &&& r.ask_bits >= r.bid_bits
}

fn quote_valid_exec(r: &TickRecord) -> (v: bool)
    ensures
        v == quote_valid(*r),
{
    (r.bid_bits >> 52) & 0x7FF != 0x7FF && (r.ask_bits >> 52) & 0x7FF != 0x7FF && r.bid_bits >> 63 == 0
        && r.bid_bits != 0 && r.ask_bits >> 63 == 0 && r.ask_bits != 0 && r.ask_bits >= r.bid_bits
}

/// A valid quote is one the candles take.
pub proof fn lemma_valid_quote_makes_candles(r: TickRecord)
    requires
        quote_valid(r),
    ensures
        !quote_invalid(r.bid_bits, r.ask_bits),
        r.bid_bits >> 63 == 0,
        !f64_is_nan(r.bid_bits),
{
}

/// A newly observed tick, with whether its quote is fit for analysis.
#[derive(Debug, Clone, Copy, PartialEq)]
pub struct AcceptedTick {
    pub observed: ObservedTick,
    pub quote_valid: bool,
}

/// The frame carries warm-up (history replay) ticks.
pub open spec fn frame_warmup(rf: ReceivedFrame) -> bool {
    rf.frame.header.header_flags & HEADER_FLAG_WARMUP != 0
}

/// The observation of the new tick `t` of the frame `rf`.
pub open spec fn observed_of(rf: ReceivedFrame, t: TickRecord) -> ObservedTick {
    ObservedTick {
        tick_id: TickId {
            broker_id: rf.frame.header.broker_id,
            session_id: rf.frame.header.session_id,
            sequence: t.sequence,
        },
        record: t,
        rx_mono_ns: rf.rx_mono_ns,
        rx_unix_ns: rf.rx_unix_ns,
        connection_generation: rf.connection_generation,
        frame_index: rf.frame_index,
        is_warmup: frame_warmup(rf),
        segment_id: 1,
        disposition: SequenceDisposition::New,
    }
}

/// The ticks of `ticks` whose disposition in `ds` is new, in order.
pub open spec fn accepted_ticks(rf: ReceivedFrame, ticks: Seq<TickRecord>, ds: Seq<SequenceDisposition>) -> Seq<AcceptedTick>
    decreases ticks.len(),
{
    if ticks.len() == 0 {
        Seq::empty()
    } else {
        let p = accepted_ticks(rf, ticks.drop_last(), ds.drop_last());
        if ds.last() == SequenceDisposition::New {
            p.push(AcceptedTick { observed: observed_of(rf, ticks.last()), quote_valid: quote_valid(ticks.last()) })
        } else {
            p
        }
    }
}

/// The candle book after the accepted ticks `acc`: each tick with a valid
/// quote whose UTC time can be established goes to the candles at its bid,
/// as of its own UTC time.
pub open spec fn candle_ticks(
    m: Map<SlotKey, crate::contracts::models::CandleSlot>,
    lm: Map<(i64, BrokerId), i64>,
    periods: Seq<(i64, usize)>,
    acc: Seq<AcceptedTick>,
    utc_offset_sec: i32,
    utc_verified: bool,
) -> (Map<SlotKey, crate::contracts::models::CandleSlot>, Map<(i64, BrokerId), i64>)
    decreases acc.len(),
{
    if acc.len() == 0 {
        (m, lm)
    } else {
        let prev = candle_ticks(m, lm, periods, acc.drop_last(), utc_offset_sec, utc_verified);
        let a = acc.last();
        if a.quote_valid {
            match normalized_time(a.observed.tick_id.broker_id, a.observed.record.broker_time_msc, utc_offset_sec, utc_verified) {
                Ok(t) => periods_step(
                    prev.0,
                    prev.1,
                    periods,
                    crate::contracts::types::NormalizedTick { observed: a.observed, utc_ms: UtcMs(t), normalization_epoch: 1 },
                    a.observed.record.bid_bits,
                    UtcMs(t),
                ),
                Err(_) => prev,
            }
        } else {
            prev
        }
    }
}

/// `d` reports the gap `g` of unseen sequences of broker `b`, session `sid`,
/// noticed in a frame received at `rx`.
pub open spec fn is_gap_diagnostic(d: Diagnostic, g: (Sequence, Sequence), b: BrokerId, sid: SessionId, rx: MonoNs) -> bool {
    &&& d.code@ == "SEQUENCE_GAP"@
    &&& d.severity == DiagnosticSeverity::Warn
    &&& d.broker_id == b
    &&& d.session_id == Some(sid)
    &&& d.mono_ns == rx
    &&& d.sequence_range == Some(g)
    &&& d.known_count == Some(if g.1 >= g.0 && g.1 - g.0 < u64::MAX { (g.1 - g.0 + 1) as u64 } else if g.1 >= g.0 { u64::MAX } else { 1u64 })
    &&& d.detail_value == 0
    &&& d.message@ == "One or more source tick sequences were not observed"@
}

/// The diagnostic log `log` after pushing `ds` one by one.
pub open spec fn push_diagnostics(log: Seq<Diagnostic>, ds: Seq<Diagnostic>) -> Seq<Diagnostic>
    decreases ds.len(),
{
    if ds.len() == 0 {
        log
    } else {
        keep_recent_diagnostics(push_diagnostics(log, ds.drop_last()).push(ds.last()))
    }
}

/// Some accepted tick has a valid quote.
pub open spec fn any_valid(acc: Seq<AcceptedTick>) -> bool {
    exists|i: int| 0 <= i < acc.len() && (#[trigger] acc[i]).quote_valid
}

/// The abstract state of one broker's feed.
pub struct FeedView {
    pub broker_id: BrokerId,
    pub ledger: LedgerView,
    pub health: HealthState,
    pub utc_offset_sec: i32,
    pub utc_verified: bool,
}

/// The ledger, health and UTC offset the engine keeps for one broker.
pub struct BrokerFeed {
    broker_id: BrokerId,
    ledger: SequenceLedger,
    health: HealthState,
    utc_offset_sec: i32,
    utc_verified: bool,
}

impl View for BrokerFeed {
    type V = FeedView;

    closed spec fn view(&self) -> FeedView {
        FeedView {
            broker_id: self.broker_id,
            ledger: self.ledger@,
            health: self.health,
            utc_offset_sec: self.utc_offset_sec,
            utc_verified: self.utc_verified,
        }
    }
}

/// What a tick batch of the frame `rf` does to the health `h`: every new
/// tick is counted, a live (not warm-up) valid one marks the feed live, and
/// a gap marks its integrity.
pub open spec fn health_after_batch(h: HealthState, rf: ReceivedFrame, acc: Seq<AcceptedTick>, gaps: nat) -> HealthState {
    let live = !frame_warmup(rf) && any_valid(acc);
    HealthState {
        total_ticks_received: (h.total_ticks_received + acc.len()) as u64,
        last_live_tick_rx_mono: if live { Some(rf.rx_mono_ns) } else { h.last_live_tick_rx_mono },
        data_freshness: if live { FreshnessState::Live } else { h.data_freshness },
        integrity: if gaps > 0 { IntegrityState::Gap } else { h.integrity },
        total_frames_received: (h.total_frames_received + 1) as u64,
        ..h
    }
}

/// The number of ticks of a frame, zero for other payloads.
pub open spec fn frame_tick_count(rf: ReceivedFrame) -> nat {
    match rf.frame.payload {
        FramePayload::TickBatch(ticks) => ticks@.len(),
        _ => 0,
    }
}

/// Each tick of a frame that gets a UTC time gets one whose candle slots
/// and their ends are instants, in every period kept.
pub open spec fn frame_times_fit(rf: ReceivedFrame, v: FeedView, periods: Seq<(i64, usize)>) -> bool {
    match rf.frame.payload {
        FramePayload::TickBatch(ticks) => forall|i: int| 0 <= i < ticks@.len() ==> match normalized_time(
            rf.frame.header.broker_id,
            (#[trigger] ticks@[i]).broker_time_msc,
            v.utc_offset_sec,
            v.utc_verified,
        ) {
            Ok(t) => forall|j: int| 0 <= j < periods.len() ==> slot_fits(t, #[trigger] periods[j].0),
            Err(_) => true,
        },
        _ => true,
    }
}

proof fn lemma_ledger_run_len(v: LedgerView, seqs: Seq<Sequence>)
    ensures
        ledger_run(v, seqs).1.len() == seqs.len(),
    decreases seqs.len(),
{
    if seqs.len() > 0 {
        lemma_ledger_run_len(v, seqs.drop_last());
    }
}

/// What processing frame `rf` does: the feed goes from `f0` to `f1`, the
/// candles from `(m0, l0)` to `(m1, l1)`, the diagnostics from `d0` to `d1`,
/// and `out` are the ticks handed on.
pub open spec fn frame_processed(
    f0: FeedView,
    m0: Map<SlotKey, CandleSlot>,
    l0: Map<(i64, BrokerId), i64>,
    periods: Seq<(i64, usize)>,
    d0: Seq<Diagnostic>,
    rf: ReceivedFrame,
    f1: FeedView,
    m1: Map<SlotKey, CandleSlot>,
    l1: Map<(i64, BrokerId), i64>,
    d1: Seq<Diagnostic>,
    out: Seq<AcceptedTick>,
) -> bool {
    match rf.frame.payload {
        FramePayload::TickBatch(ticks) => {
            let run = ledger_run(ledger_session(f0.ledger, rf.frame.header.session_id), sequences_of(ticks@));
            let acc = accepted_ticks(rf, ticks@, run.1);
            &&& f1.ledger == run.0
            &&& out == acc
            &&& f1.health == health_after_batch(f0.health, rf, acc, run.2.len())
            &&& (m1, l1) == candle_ticks(
                m0,
                l0,
                periods,
                acc,
                f0.utc_offset_sec,
                f0.utc_verified,
            )
            &&& exists|ds: Seq<Diagnostic>| #![trigger push_diagnostics(d0, ds)]
                ds.len() == run.2.len()
                && (forall|i: int| 0 <= i < ds.len() ==> is_gap_diagnostic(
                    #[trigger] ds[i],
                    run.2[i],
                    f0.broker_id,
                    rf.frame.header.session_id,
                    rf.rx_mono_ns,
                ))
                && d1 == push_diagnostics(d0, ds)
        },
        FramePayload::Heartbeat(hb) => {
            &&& f1.ledger == ledger_session(f0.ledger, hb.session_id)
            &&& f1.health == (HealthState {
                last_heartbeat_rx_mono: Some(rf.rx_mono_ns),
                heartbeat: HeartbeatState::Healthy,
                total_frames_received: (f0.health.total_frames_received + 1) as u64,
                ..f0.health
            })
            &&& out.len() == 0
            &&& m1 == m0
            &&& l1 == l0
            &&& d1 == d0
        },
        FramePayload::Status(st) => {
            &&& f1.ledger == f0.ledger
            &&& f1.health == (HealthState {
                phase: if st.phase == PHASE_WARMING { PhaseState::Warming } else { PhaseState::Live },
                total_frames_received: (f0.health.total_frames_received + 1) as u64,
                ..f0.health
            })
            &&& out.len() == 0
            &&& m1 == m0
            &&& l1 == l0
            &&& d1 == d0
        },
        FramePayload::BatchAck(_) => {
            &&& f1.ledger == f0.ledger
            &&& f1.health == (HealthState {
                total_frames_received: (f0.health.total_frames_received + 1) as u64,
                ..f0.health
            })
            &&& out.len() == 0
            &&& m1 == m0
            &&& l1 == l0
            &&& d1 == d0
        },
    }
}

impl BrokerFeed {
    pub closed spec fn wf(&self) -> bool {
        self.ledger.wf()
    }

    /// The feed of a configured broker, keeping `ledger_capacity` recent
    /// sequences; its normalization is verified where the configuration
    /// says its UTC offset is.
    pub fn new(broker: &BrokerConfig, ledger_capacity: usize) -> (r: Self)
        ensures
            r.wf(),
            r@ == (FeedView {
                broker_id: broker.id,
                ledger: LedgerView { session_id: None, expected: 0, recent: Seq::empty(), capacity: ledger_capacity as nat },
                health: HealthState {
                    broker_id: broker.id,
                    normalization: if broker.utc_verified { NormalizationState::Verified } else { NormalizationState::Unverified },
                    ..initial_health()
                },
                utc_offset_sec: broker.utc_offset_sec,
                utc_verified: broker.utc_verified,
            }),
    {
        let base = HealthState::default();
        BrokerFeed {
            broker_id: broker.id,
            ledger: SequenceLedger::new(ledger_capacity),
            health: HealthState {
                broker_id: broker.id,
                normalization: if broker.utc_verified { NormalizationState::Verified } else { NormalizationState::Unverified },
                ..base
            },
            utc_offset_sec: broker.utc_offset_sec,
            utc_verified: broker.utc_verified,
        }
    }

    pub fn broker_id(&self) -> (r: BrokerId)
        ensures
            r == self@.broker_id,
    {
        self.broker_id
    }

    /// The health as recorded.
    pub fn health(&self) -> (r: HealthState)
        ensures
            r == self@.health,
    {
        self.health
    }

    /// The session the ledger follows.
    pub fn session_id(&self) -> (r: Option<SessionId>)
        requires
            self.wf(),
        ensures
            r == self@.ledger.session_id,
    {
        self.ledger.session_id()
    }

    pub fn utc_offset(&self) -> (r: (i32, bool))
        ensures
            r == (self@.utc_offset_sec, self@.utc_verified),
    {
        (self.utc_offset_sec, self.utc_verified)
    }

    /// Whether every tick of `rf` that gets a UTC time gets one whose candle
    /// slots, in every period of `periods`, and their ends are instants.
    pub fn frame_fits(&self, rf: &ReceivedFrame, periods: &[(i64, usize)]) -> (r: bool)
        ensures
            r == frame_times_fit(*rf, self@, periods@),
    {
        match &rf.frame.payload {
            FramePayload::TickBatch(ticks) => {
                let mut i: usize = 0;
                while i < ticks.len()
                    invariant
                        i <= ticks@.len(),
                        rf.frame.payload == FramePayload::TickBatch(*ticks),
                        forall|k: int| 0 <= k < i ==> match normalized_time(
                            rf.frame.header.broker_id,
                            (#[trigger] ticks@[k]).broker_time_msc,
                            self@.utc_offset_sec,
                            self@.utc_verified,
                        ) {
                            Ok(t) => forall|j: int| 0 <= j < periods@.len() ==> slot_fits(t, #[trigger] periods@[j].0),
                            Err(_) => true,
                        },
                    decreases ticks@.len() - i,
                {
                    let observed = ObservedTick {
                        tick_id: TickId {
                            broker_id: rf.frame.header.broker_id,
                            session_id: rf.frame.header.session_id,
                            sequence: ticks[i].sequence,
                        },
                        record: ticks[i],
                        rx_mono_ns: rf.rx_mono_ns,
                        rx_unix_ns: rf.rx_unix_ns,
                        connection_generation: rf.connection_generation,
                        frame_index: rf.frame_index,
                        is_warmup: false,
                        segment_id: 1,
                        disposition: SequenceDisposition::New,
                    };
                    match normalize_tick(&observed, self.utc_offset_sec, self.utc_verified, 1) {
                        Ok(norm) => {
                            let ghost ti = ticks@[i as int];
                            let mut j: usize = 0;
                            while j < periods.len()
                                invariant
                                    j <= periods@.len(),
                                    i < ticks@.len(),
                                    ti == ticks@[i as int],
                                    rf.frame.payload == FramePayload::TickBatch(*ticks),
                                    normalized_time(rf.frame.header.broker_id, ti.broker_time_msc, self@.utc_offset_sec, self@.utc_verified)
                                        == Ok::<i64, Seq<char>>(norm.utc_ms.0),
                                    forall|m: int| 0 <= m < j ==> slot_fits(norm.utc_ms.0, #[trigger] periods@[m].0),
                                decreases periods@.len() - j,
                            {
                                if !slot_fits_exec(norm.utc_ms.0, periods[j].0) {
                                    proof {
                                        assert(!slot_fits(norm.utc_ms.0, periods@[j as int].0));
                                        assert(!(match normalized_time(rf.frame.header.broker_id, ti.broker_time_msc, self@.utc_offset_sec, self@.utc_verified) {
                                            Ok(t) => forall|m: int| 0 <= m < periods@.len() ==> slot_fits(t, #[trigger] periods@[m].0),
                                            Err(_) => true,
                                        }));
                                    }
                                    return false;
                                }
                                j = j + 1;
                            }
                        },
                        Err(_) => {},
                    }
                    i = i + 1;
                }
                true
            },
            _ => true,
        }
    }

    /// A new connection: nothing is yet known of its freshness or heartbeat.
    pub fn on_connected(&mut self)
        requires
            old(self).wf(),
        ensures
            final(self).wf(),
            final(self)@ == (FeedView {
                health: HealthState {
                    connection: ConnectionState::Connected,
                    data_freshness: FreshnessState::Unknown,
                    last_live_tick_rx_mono: None,
                    last_heartbeat_rx_mono: None,
                    heartbeat: HeartbeatState::Unknown,
                    ..old(self)@.health
                },
                ..old(self)@
            }),
    {
        self.health = HealthState {
            connection: ConnectionState::Connected,
            data_freshness: FreshnessState::Unknown,
            last_live_tick_rx_mono: None,
            last_heartbeat_rx_mono: None,
            heartbeat: HeartbeatState::Unknown,
            ..self.health
        };
    }

    /// The current connection ended.
    pub fn on_disconnected(&mut self)
        requires
            old(self).wf(),
        ensures
            final(self).wf(),
            final(self)@ == (FeedView {
                health: HealthState { connection: ConnectionState::Disconnected, ..old(self)@.health },
                ..old(self)@
            }),
    {
        self.health = HealthState { connection: ConnectionState::Disconnected, ..self.health };
    }

    /// The engine had to process frames of this feed out of merge order.
    pub fn mark_engine_overload(&mut self)
        requires
            old(self).wf(),
        ensures
            final(self).wf(),
            final(self)@ == (FeedView {
                health: HealthState {
                    overload: crate::contracts::types::OverloadFlags { engine: true, ..old(self)@.health.overload },
                    ..old(self)@.health
                },
                ..old(self)@
            }),
    {
        self.health = HealthState {
            overload: crate::contracts::types::OverloadFlags { engine: true, ..self.health.overload },
            ..self.health
        };
    }

    /// Processes one frame of this feed. A tick batch runs through the
    /// sequence ledger of its session; its new ticks are counted, go to the
    /// candles as `candle_ticks` says and are returned; each gap it reveals
    /// is reported. A heartbeat follows its session and is recorded; a
    /// status sets the phase. Every frame is counted.
    pub fn process_frame(&mut self, rf: &ReceivedFrame, book: &mut CandleBook, diagnostics: &mut DiagnosticLog) -> (r: Vec<AcceptedTick>)
        requires
            old(self).wf(),
            old(book).wf(),
            old(diagnostics)@.len() <= MAX_DIAGNOSTICS,
            rf.frame.header.broker_id == old(self)@.broker_id,
            old(self)@.health.total_frames_received < u64::MAX,
            old(self)@.health.total_ticks_received + frame_tick_count(*rf) <= u64::MAX,
            frame_tick_count(*rf) < u64::MAX,
            counts_below(old(book).slot_map(), u64::MAX - frame_tick_count(*rf)),
            frame_times_fit(*rf, old(self)@, old(book).periods()),
        ensures
            final(self).wf(),
            final(book).wf(),
            final(book).periods() == old(book).periods(),
            final(diagnostics)@.len() <= MAX_DIAGNOSTICS,
            final(self)@.broker_id == old(self)@.broker_id,
            final(self)@.utc_offset_sec == old(self)@.utc_offset_sec,
            final(self)@.utc_verified == old(self)@.utc_verified,
            frame_processed(
                old(self)@,
                old(book).slot_map(),
                old(book).latest_map(),
                old(book).periods(),
                old(diagnostics)@,
                *rf,
                final(self)@,
                final(book).slot_map(),
                final(book).latest_map(),
                final(diagnostics)@,
                r@,
            ),
    {
        let broker_id = self.broker_id;
        let mut accepted: Vec<AcceptedTick> = Vec::new();
        match &rf.frame.payload {
            FramePayload::TickBatch(ticks) => {
                let sid = rf.frame.header.session_id;
                let ghost v0 = self@;
                let ghost m0 = book.slot_map();
                let ghost l0 = book.latest_map();
                let ghost periods = book.periods();
                let ghost n = ticks@.len();
                let (ds, gaps) = self.ledger.observe_batch(sid, ticks.as_slice());
                let ghost run = ledger_run(ledger_session(v0.ledger, sid), sequences_of(ticks@));
                proof {
                    lemma_ledger_run_len(ledger_session(v0.ledger, sid), sequences_of(ticks@));
                }
                let warmup = (rf.frame.header.header_flags & HEADER_FLAG_WARMUP) != 0;
                let mut live = false;
                let mut i: usize = 0;
                while i < ticks.len()
                    invariant
                        self.wf(),
                        book.wf(),
                        book.periods() == periods,
                        i <= n,
                        n == ticks@.len(),
                        n < u64::MAX,
                        ds@ == run.1,
                        ds@.len() == n,
                        broker_id == rf.frame.header.broker_id,
                        sid == rf.frame.header.session_id,
                        warmup == frame_warmup(*rf),
                        self.utc_offset_sec == v0.utc_offset_sec,
                        self.utc_verified == v0.utc_verified,
                        accepted@ == accepted_ticks(*rf, ticks@.take(i as int), ds@.take(i as int)),
                        accepted@.len() <= i,
                        live == any_valid(accepted@),
                        (book.slot_map(), book.latest_map()) == candle_ticks(m0, l0, periods, accepted@, v0.utc_offset_sec, v0.utc_verified),
                        counts_below(book.slot_map(), u64::MAX - (n - i)),
                        frame_times_fit(*rf, v0, periods),
                        rf.frame.payload == FramePayload::TickBatch(*ticks),
                    decreases n - i,
                {
                    let t = ticks[i];
                    let ghost acc0 = accepted@;
                    proof {
                        assert(ticks@.take(i as int + 1).drop_last() =~= ticks@.take(i as int));
                        assert(ds@.take(i as int + 1).drop_last() =~= ds@.take(i as int));
                        assert(ticks@.take(i as int + 1).last() == ticks@[i as int]);
                        assert(ds@.take(i as int + 1).last() == ds@[i as int]);
                        book.lemma_wf_periods();
                    }
                    if ds[i] == SequenceDisposition::New {
                        let observed = ObservedTick {
                            tick_id: TickId { broker_id, session_id: sid, sequence: t.sequence },
                            record: t,
                            rx_mono_ns: rf.rx_mono_ns,
                            rx_unix_ns: rf.rx_unix_ns,
                            connection_generation: rf.connection_generation,
                            frame_index: rf.frame_index,
                            is_warmup: warmup,
                            segment_id: 1,
                            disposition: SequenceDisposition::New,
                        };
                        let valid = quote_valid_exec(&t);
                        accepted.push(AcceptedTick { observed, quote_valid: valid });
                        proof {
                            assert(accepted@.drop_last() =~= acc0);
                            if live {
                                let j = choose|j: int| 0 <= j < acc0.len() && (#[trigger] acc0[j]).quote_valid;
                                assert(accepted@[j] == acc0[j]);
                            }
                            if any_valid(accepted@) && !valid {
                                let j = choose|j: int| 0 <= j < accepted@.len() && (#[trigger] accepted@[j]).quote_valid;
                                assert(acc0[j] == accepted@[j]);
                            }
                            if valid {
                                assert(accepted@[accepted@.len() - 1].quote_valid);
                            }
                        }
                        if valid {
                            live = true;
                            match normalize_tick(&observed, self.utc_offset_sec, self.utc_verified, 1) {
                                Ok(norm) => {
                                    proof {
                                        lemma_valid_quote_makes_candles(t);
                                        assert(ticks@[i as int] == t);
                                        let tm = norm.utc_ms.0;
                                        assert forall|j: int| 0 <= j < book.periods().len() implies slot_fits(tm, #[trigger] book.periods()[j].0) by {
                                            assert(slot_fits(tm, periods[j].0));
                                        }
                                        lemma_periods_step_counts(
                                            book.slot_map(),
                                            book.latest_map(),
                                            periods,
                                            norm,
                                            t.bid_bits,
                                            norm.utc_ms,
                                            u64::MAX - (n - i),
                                        );
                                    }
                                    book.on_tick(&norm, norm.observed.record.bid_bits, norm.utc_ms);
                                },
                                Err(_) => {},
                            }
                        }
                    }
                    proof {
                        if !(ds@[i as int] == SequenceDisposition::New) {
                            assert(accepted@ == acc0);
                        }
                        assert forall|k: SlotKey| #[trigger] book.slot_map().contains_key(k) implies book.slot_map()[k].revision < u64::MAX - (n - (i + 1))
                            && book.slot_map()[k].tick_count < u64::MAX - (n - (i + 1)) by {}
                    }
                    i = i + 1;
                }
                proof {
                    assert(ticks@.take(n as int) =~= ticks@);
                    assert(ds@.take(n as int) =~= ds@);
                }
                let count = accepted.len() as u64;
                let mut h = HealthState {
                    total_ticks_received: self.health.total_ticks_received + count,
                    total_frames_received: self.health.total_frames_received + 1,
                    ..self.health
                };
                if !warmup && live {
                    h = HealthState { last_live_tick_rx_mono: Some(rf.rx_mono_ns), data_freshness: FreshnessState::Live, ..h };
                }
                if gaps.len() > 0 {
                    h = HealthState { integrity: IntegrityState::Gap, ..h };
                }
                self.health = h;
                let ghost d0 = diagnostics@;
                let ghost mut pushed: Seq<Diagnostic> = Seq::empty();
                let mut g: usize = 0;
                while g < gaps.len()
                    invariant
                        g <= gaps@.len(),
                        gaps@ == run.2,
                        broker_id == v0.broker_id,
                        pushed.len() == g,
                        forall|k: int| 0 <= k < g ==> is_gap_diagnostic(#[trigger] pushed[k], run.2[k], v0.broker_id, sid, rf.rx_mono_ns),
                        diagnostics@ == push_diagnostics(d0, pushed),
                        diagnostics@.len() <= MAX_DIAGNOSTICS,
                    decreases gaps@.len() - g,
                {
                    let (first, last) = gaps[g];
                    let d = Diagnostic {
                        code: string_of("SEQUENCE_GAP"),
                        severity: DiagnosticSeverity::Warn,
                        broker_id,
                        session_id: Some(sid),
                        mono_ns: rf.rx_mono_ns,
                        sequence_range: Some((first, last)),
                        known_count: Some(last.saturating_sub(first).saturating_add(1)),
                        detail_value: 0,
                        message: string_of("One or more source tick sequences were not observed"),
                    };
                    let ghost before = pushed;
                    proof {
                        pushed = pushed.push(d);
                        assert(pushed.drop_last() =~= before);
                    }
                    diagnostics.push(d);
                    g = g + 1;
                }
                accepted
            },
            FramePayload::Heartbeat(hb) => {
                self.ledger.begin_session(hb.session_id);
                self.health = HealthState {
                    last_heartbeat_rx_mono: Some(rf.rx_mono_ns),
                    heartbeat: HeartbeatState::Healthy,
                    total_frames_received: self.health.total_frames_received + 1,
                    ..self.health
                };
                accepted
            },
            FramePayload::Status(st) => {
                self.health = HealthState {
                    phase: if st.phase == PHASE_WARMING { PhaseState::Warming } else { PhaseState::Live },
                    total_frames_received: self.health.total_frames_received + 1,
                    ..self.health
                };
                accepted
            },
            FramePayload::BatchAck(_) => {
                self.health = HealthState { total_frames_received: self.health.total_frames_received + 1, ..self.health };
                accepted
            },
        }
    }
}

} // verus!
