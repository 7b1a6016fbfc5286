//! The ingress side of the tick engine: one channel and one feed per
//! configured broker, the watermark merge across the channels, the candles
//! and the diagnostics. An ingress item is taken in, then frames are handed
//! over one step at a time, in the order the engine processes them: first
//! the frames a channel holds beyond its budget, then the frames received
//! by the watermark, earliest merge key first.

use crate::contracts::config::{AppConfig, BrokerConfig};
use crate::contracts::models::{CandleSlot, CandleView};
use crate::contracts::types::{
    ingress_broker, initial_health, BrokerId, ConnectionState, Diagnostic, DiagnosticSeverity,
    FramePayload, FreshnessState, HealthState, HeartbeatState, IngressItem, MonoNs,
    NormalizationState, OverloadFlags, ReceivedFrame, SessionId, UtcMs,
};
use crate::tick::candle::{
    counts_below, retention_periods, view_fits, view_fits_exec, view_row, view_starts, CandleBook,
    SlotKey,
};
use crate::tick::engine::{
    calculate_global_watermark, channel_over_capacity, channel_step, global_watermark, key_bound,
    key_less, keep_recent_diagnostics, mergeable, min_connected_watermark, sat_sub,
    select_next_frame, BrokerChannel, ChannelView, DiagnosticLog, LedgerView, MergeKey,
    MAX_DIAGNOSTICS,
};
use crate::tick::feed::{
    frame_processed, frame_tick_count, frame_times_fit, AcceptedTick, BrokerFeed, FeedView,
};
use crate::text::string_of;
use vstd::prelude::*;

verus! {

/// The abstract state of the pipeline.
pub struct PipelineView {
    pub ids: Seq<BrokerId>,
    pub channels: Seq<ChannelView>,
    pub feeds: Seq<FeedView>,
    pub slots: Map<SlotKey, CandleSlot>,
    pub latest: Map<(i64, BrokerId), i64>,
    pub periods: Seq<(i64, usize)>,
    pub diagnostics: Seq<Diagnostic>,
    pub watermark: MonoNs,
    /// The channel whose overflow is being processed, if any.
    pub draining: Option<usize>,
    /// How many frames that channel has had processed out of merge order.
    pub forced: u64,
}

/// A channel before any connection, with the given budgets.
pub open spec fn initial_channel(max_frames: usize, max_bytes: usize) -> ChannelView {
    ChannelView {
        connected: false,
        generation: 0,
        watermark: MonoNs(0),
        pending: Seq::empty(),
        pending_bytes: 0,
        max_frames,
        max_bytes,
    }
}

/// The feed of broker `b` before any connection.
pub open spec fn initial_feed(b: BrokerConfig, ledger_capacity: usize) -> FeedView {
    FeedView {
        broker_id: b.id,
        ledger: LedgerView { session_id: None, expected: 0, recent: Seq::empty(), capacity: ledger_capacity as nat },
        health: HealthState {
            broker_id: b.id,
            normalization: if b.utc_verified { NormalizationState::Verified } else { NormalizationState::Unverified },
            ..initial_health()
        },
        utc_offset_sec: b.utc_offset_sec,
        utc_verified: b.utc_verified,
    }
}

/// What an ingress item does to the feed of its broker: a connection
/// starts with nothing known of freshness or heartbeat; a closed one is
/// marked disconnected.
pub open spec fn feed_after_item(f: FeedView, item: IngressItem, closed: bool) -> FeedView {
    match item {
        IngressItem::Connected { .. } => FeedView {
            health: HealthState {
                connection: ConnectionState::Connected,
                data_freshness: FreshnessState::Unknown,
                last_live_tick_rx_mono: None,
                last_heartbeat_rx_mono: None,
                heartbeat: HeartbeatState::Unknown,
                ..f.health
            },
            ..f
        },
        _ => if closed {
            FeedView { health: HealthState { connection: ConnectionState::Disconnected, ..f.health }, ..f }
        } else {
            f
        },
    }
}

/// `d` reports that the connection of broker `b`, session `sid`, closed
/// with `reason` when its channel had reached `wm`.
pub open spec fn is_closed_diagnostic(d: Diagnostic, b: BrokerId, sid: Option<SessionId>, wm: MonoNs, reason: Seq<char>) -> bool {
    &&& d.code@ == "CONNECTION_CLOSED"@
    &&& d.severity == DiagnosticSeverity::Info
    &&& d.broker_id == b
    &&& d.session_id == sid
    &&& d.mono_ns == wm
    &&& d.sequence_range is None
    &&& d.known_count is None
    &&& d.detail_value == 0
    &&& d.message@ == reason
}

/// `d` reports that `forced` frames of broker `b`, session `sid`, were
/// processed out of merge order, the merge having reached `wm`.
pub open spec fn is_backpressure_diagnostic(d: Diagnostic, b: BrokerId, sid: Option<SessionId>, wm: MonoNs, forced: u64) -> bool {
    &&& d.code@ == "MERGE_BACKPRESSURE"@
    &&& d.severity == DiagnosticSeverity::Warn
    &&& d.broker_id == b
    &&& d.session_id == sid
    &&& d.mono_ns == wm
    &&& d.sequence_range is None
    &&& d.known_count == Some(forced)
    &&& d.detail_value == 0
    &&& d.message@ == "Merge wait budget exhausted; processed durable frames out of watermark order"@
}

/// `ds` is `log` with `ds.last()` pushed, as the diagnostic log keeps it.
pub open spec fn pushed_last(log: Seq<Diagnostic>, ds: Seq<Diagnostic>) -> bool {
    ds.len() > 0 && ds == keep_recent_diagnostics(log.push(ds.last()))
}

/// Every frame pending in channel `c` is headed for broker `b`.
pub open spec fn frames_headed_for(c: ChannelView, b: BrokerId) -> bool {
    forall|k: int| 0 <= k < c.pending.len() ==> (#[trigger] c.pending[k]).frame.header.broker_id == b
}

/// The channel after its oldest pending frame is taken.
pub open spec fn channel_pop(c: ChannelView) -> ChannelView {
    ChannelView {
        pending: c.pending.drop_first(),
        pending_bytes: sat_sub(c.pending_bytes, c.pending[0].raw_wire_bytes@.len()),
        ..c
    }
}

/// The merge key of the front of channel `i`, or the bound where it holds
/// nothing.
pub open spec fn front_key_at(v: PipelineView, i: int) -> MergeKey {
    if v.channels[i].pending.len() > 0 {
        MergeKey {
            rx_mono_ns: v.channels[i].pending[0].rx_mono_ns,
            broker_id: v.ids[i],
            connection_generation: v.channels[i].pending[0].connection_generation,
            frame_index: v.channels[i].pending[0].frame_index,
        }
    } else {
        key_bound()
    }
}

/// The merge keys of the fronts of all channels.
pub open spec fn front_keys(v: PipelineView) -> Seq<MergeKey> {
    Seq::new(v.channels.len(), |i: int| front_key_at(v, i))
}

/// `i` is the channel whose front the merge takes next: a front received
/// by the watermark, first in merge order, the first such channel on ties.
pub open spec fn merge_pick(fronts: Seq<MergeKey>, wm: MonoNs, i: int) -> bool {
    &&& 0 <= i < fronts.len()
    &&& mergeable(fronts[i], wm)
    &&& forall|j: int| 0 <= j < fronts.len() && mergeable(#[trigger] fronts[j], wm) ==> !key_less(fronts[j], fronts[i])
    &&& forall|j: int| 0 <= j < i && mergeable(#[trigger] fronts[j], wm) ==> key_less(fronts[i], fronts[j])
}

/// The feed can take frame `rf` without any of its counts, or those of the
/// candles, overflowing, and every time of it fits the candle slots.
pub open spec fn frame_processable(f: FeedView, slots: Map<SlotKey, CandleSlot>, periods: Seq<(i64, usize)>, rf: ReceivedFrame) -> bool {
    &&& f.health.total_frames_received < u64::MAX
    &&& f.health.total_ticks_received + frame_tick_count(rf) <= u64::MAX
    &&& frame_tick_count(rf) < u64::MAX
    &&& counts_below(slots, u64::MAX - frame_tick_count(rf))
    &&& frame_times_fit(rf, f, periods)
}

/// The overflowing channel `d` still holds frames beyond its budget.
pub open spec fn draining_active(v: PipelineView, d: usize) -> bool {
    channel_over_capacity(v.channels[d as int]) && v.channels[d as int].pending.len() > 0
}

/// The connection state and watermark of every channel.
pub open spec fn channel_marks(cs: Seq<ChannelView>) -> Seq<(bool, MonoNs)> {
    Seq::new(cs.len(), |i: int| (cs[i].connected, cs[i].watermark))
}

/// The pipeline after frame `rf`, the front of channel `i`, is processed:
/// the channel gives it up, the feed, candles and diagnostics change as
/// `frame_processed` says, and `out` are the ticks handed on.
pub open spec fn processed_at(v0: PipelineView, v1: PipelineView, i: int, out: Seq<AcceptedTick>) -> bool {
    let rf = v0.channels[i].pending[0];
    &&& v1.channels == v0.channels.update(i, channel_pop(v0.channels[i]))
    &&& v1.feeds.len() == v0.feeds.len()
    &&& v1.feeds == v0.feeds.update(i, v1.feeds[i])
    &&& frame_processed(
        v0.feeds[i],
        v0.slots,
        v0.latest,
        v0.periods,
        v0.diagnostics,
        rf,
        v1.feeds[i],
        v1.slots,
        v1.latest,
        v1.diagnostics,
        out,
    )
    &&& v1.ids == v0.ids
    &&& v1.periods == v0.periods
    &&& v1.watermark == v0.watermark
}

/// The feed with its engine overload flag raised.
pub open spec fn overload_marked(f: FeedView) -> FeedView {
    FeedView {
        health: HealthState {
            overload: OverloadFlags { engine: true, ..f.health.overload },
            ..f.health
        },
        ..f
    }
}

/// The pipeline once the overflow of channel `d` is done with: a feed that
/// had frames forced through is marked overloaded and reported, and the
/// merge watermark is taken anew from the channels.
pub open spec fn settled(v0: PipelineView, v1: PipelineView, d: int) -> bool {
    &&& v1.feeds == v0.feeds.update(d, if v0.forced > 0 { overload_marked(v0.feeds[d]) } else { v0.feeds[d] })
    &&& v0.forced > 0 ==> pushed_last(v0.diagnostics, v1.diagnostics) && is_backpressure_diagnostic(
        v1.diagnostics.last(),
        v0.ids[d],
        v0.feeds[d].ledger.session_id,
        v0.watermark,
        v0.forced,
    )
    &&& v0.forced == 0 ==> v1.diagnostics == v0.diagnostics
    &&& v1.watermark.0 == global_watermark(channel_marks(v0.channels))
    &&& v1.draining is None
    &&& v1.forced == 0
    &&& v1.channels == v0.channels
    &&& v1.ids == v0.ids
    &&& v1.slots == v0.slots
    &&& v1.latest == v0.latest
    &&& v1.periods == v0.periods
}

/// `i` is the first index of `b` in `ids`.
pub open spec fn is_first_index(ids: Seq<BrokerId>, b: BrokerId, i: int) -> bool {
    &&& 0 <= i < ids.len()
    &&& ids[i] == b
    &&& forall|j: int| 0 <= j < i ==> ids[j] != b
}

/// The number of ticks a frame carries, as `frame_tick_count` counts them.
pub fn tick_count_of(rf: &ReceivedFrame) -> (r: u64)
    ensures
        r == frame_tick_count(*rf),
{
    match &rf.frame.payload {
        FramePayload::TickBatch(ticks) => ticks.len() as u64,
        _ => 0,
    }
}

/// What one step of the pipeline did.
pub enum PipelineStep {
    /// The front frame of channel `index`, received at `rx_mono_ns`, was
    /// processed; `accepted` are its new ticks.
    Processed { index: usize, rx_mono_ns: MonoNs, accepted: Vec<AcceptedTick> },
    /// The overflow of a channel is done with: the merge may go on.
    Settled,
    /// No frame is due.
    Idle,
    /// The frame due next, the front of channel `index`, would overflow a
    /// count; nothing was done.
    Blocked { index: usize },
}

/// The channels and feeds of all configured brokers, with the candles and
/// the diagnostics the feeds write.
pub struct IngressPipeline {
    broker_ids: Vec<BrokerId>,
    channels: Vec<BrokerChannel>,
    feeds: Vec<BrokerFeed>,
    book: CandleBook,
    diagnostics: DiagnosticLog,
    watermark: MonoNs,
    draining: Option<usize>,
    forced: u64,
}

impl View for IngressPipeline {
    type V = PipelineView;

    closed spec fn view(&self) -> PipelineView {
        PipelineView {
            ids: self.broker_ids@,
            channels: self.channels@.map_values(|c: BrokerChannel| c@),
            feeds: self.feeds@.map_values(|f: BrokerFeed| f@),
            slots: self.book.slot_map(),
            latest: self.book.latest_map(),
            periods: self.book.periods(),
            diagnostics: self.diagnostics@,
            watermark: self.watermark,
            draining: self.draining,
            forced: self.forced,
        }
    }
}

impl IngressPipeline {
    /// The pipeline is consistent: one channel and one feed per broker, each
    /// feed of its broker, each pending frame headed for its channel's
    /// broker.
    pub closed spec fn wf(&self) -> bool {
        &&& self.channels@.len() == self.broker_ids@.len()
        &&& self.feeds@.len() == self.broker_ids@.len()
        &&& forall|i: int| 0 <= i < self.feeds@.len() ==> (#[trigger] self.feeds@[i]).wf()
        &&& forall|i: int| 0 <= i < self.feeds@.len() ==> (#[trigger] self.feeds@[i])@.broker_id == self.broker_ids@[i]
        &&& forall|i: int| 0 <= i < self.channels@.len() ==> frames_headed_for((#[trigger] self.channels@[i])@, self.broker_ids@[i])
        &&& self.book.wf()
        &&& self.diagnostics@.len() <= MAX_DIAGNOSTICS
        &&& self.draining matches Some(d) ==> d < self.broker_ids@.len()
    }

    /// A pipeline for the brokers of `config`: every channel disconnected
    /// and empty with the configured budgets, every feed as before any
    /// connection, the candles of the configured retentions, no diagnostics.
    pub fn new(config: &AppConfig) -> (r: Self)
        ensures
            r.wf(),
            r@.ids == config.brokers@.map_values(|b: BrokerConfig| b.id),
            r@.channels == Seq::new(
                config.brokers@.len(),
                |i: int| initial_channel(config.ingress.max_frames_per_broker, config.ingress.max_bytes_per_broker),
            ),
            r@.feeds == Seq::new(config.brokers@.len(), |i: int| initial_feed(config.brokers@[i], config.history.ledger_capacity)),
            r@.periods == retention_periods(config.history.retentions@),
            r@.slots == Map::<SlotKey, CandleSlot>::empty(),
            r@.latest == Map::<(i64, BrokerId), i64>::empty(),
            r@.diagnostics == Seq::<Diagnostic>::empty(),
            r@.watermark == MonoNs(0),
            r@.draining is None,
            r@.forced == 0,
    {
        let mut broker_ids: Vec<BrokerId> = Vec::new();
        let mut channels: Vec<BrokerChannel> = Vec::new();
        let mut feeds: Vec<BrokerFeed> = Vec::new();
        let n = config.brokers.len();
        let mut i: usize = 0;
        while i < n
            invariant
                i <= n,
                n == config.brokers@.len(),
                broker_ids@ == config.brokers@.take(i as int).map_values(|b: BrokerConfig| b.id),
                channels@.len() == i,
                feeds@.len() == i,
                forall|k: int| 0 <= k < i ==> (#[trigger] channels@[k])@ == initial_channel(config.ingress.max_frames_per_broker, config.ingress.max_bytes_per_broker),
                forall|k: int| 0 <= k < i ==> (#[trigger] feeds@[k]).wf(),
                forall|k: int| 0 <= k < i ==> (#[trigger] feeds@[k])@ == initial_feed(config.brokers@[k], config.history.ledger_capacity),
            decreases n - i,
        {
            let b = &config.brokers[i];
            broker_ids.push(b.id);
            channels.push(BrokerChannel::new(config.ingress.max_frames_per_broker, config.ingress.max_bytes_per_broker));
            feeds.push(BrokerFeed::new(b, config.history.ledger_capacity));
            proof {
                assert(config.brokers@.take(i as int + 1).drop_last() =~= config.brokers@.take(i as int));
            }
            i = i + 1;
        }
        proof {
            assert(config.brokers@.take(n as int) =~= config.brokers@);
        }
        let r = IngressPipeline {
            broker_ids,
            channels,
            feeds,
            book: CandleBook::with_retentions(config.history.retentions.as_slice()),
            diagnostics: DiagnosticLog::new(),
            watermark: MonoNs(0),
            draining: None,
            forced: 0,
        };
        proof {
            assert(r@.channels =~= Seq::new(
                config.brokers@.len(),
                |i: int| initial_channel(config.ingress.max_frames_per_broker, config.ingress.max_bytes_per_broker),
            ));
            assert(r@.feeds =~= Seq::new(config.brokers@.len(), |i: int| initial_feed(config.brokers@[i], config.history.ledger_capacity)));
            assert forall|i: int| 0 <= i < r.feeds@.len() implies (#[trigger] r.feeds@[i])@.broker_id == r.broker_ids@[i] by {
                assert(r.feeds@[i]@ == r@.feeds[i]);
            }
        }
        r
    }

    /// The first channel of broker `b`, if any.
    fn find_index(&self, b: BrokerId) -> (r: Option<usize>)
        ensures
            r matches Some(i) ==> is_first_index(self.broker_ids@, b, i as int),
            r is None ==> !self.broker_ids@.contains(b),
    {
        let mut i: usize = 0;
        while i < self.broker_ids.len()
            invariant
                i <= self.broker_ids@.len(),
                forall|j: int| 0 <= j < i ==> self.broker_ids@[j] != b,
            decreases self.broker_ids@.len() - i,
        {
            if self.broker_ids[i] == b {
                return Some(i);
            }
            i = i + 1;
        }
        None
    }

    /// Takes in an ingress item of a configured broker: its channel takes
    /// the item; a new connection resets the feed's freshness and heartbeat,
    /// a closed one marks the feed disconnected and is reported. The channel
    /// is then drained of any frames beyond its budget, one step at a time.
    /// An item of another broker changes nothing.
    pub fn on_ingress_item(&mut self, item: IngressItem) -> (r: Option<usize>)
        requires
            old(self).wf(),
        ensures
            final(self).wf(),
            r is None ==> !old(self)@.ids.contains(ingress_broker(item)) && final(self)@ == old(self)@,
            r matches Some(i) ==> {
                let v0 = old(self)@;
                let v1 = final(self)@;
                let (c1, closed) = channel_step(v0.channels[i as int], item);
                &&& is_first_index(v0.ids, ingress_broker(item), i as int)
                &&& v1.channels == v0.channels.update(i as int, c1)
                &&& v1.feeds == v0.feeds.update(i as int, feed_after_item(v0.feeds[i as int], item, closed is Some))
                &&& match closed {
                    Some(reason) => pushed_last(v0.diagnostics, v1.diagnostics) && is_closed_diagnostic(
                        v1.diagnostics.last(),
                        ingress_broker(item),
                        v0.feeds[i as int].ledger.session_id,
                        c1.watermark,
                        reason,
                    ),
                    None => v1.diagnostics == v0.diagnostics,
                }
                &&& v1.draining == Some(i)
                &&& v1.forced == 0
                &&& v1.ids == v0.ids
                &&& v1.slots == v0.slots
                &&& v1.latest == v0.latest
                &&& v1.periods == v0.periods
                &&& v1.watermark == v0.watermark
            },
    {
        let b = item.broker_id();
        let idx = match self.find_index(b) {
            Some(i) => i,
            None => {
                return None;
            },
        };
        let ghost v0 = self@;
        let ghost step = channel_step(v0.channels[idx as int], item);
        let connected = match &item {
            IngressItem::Connected { .. } => true,
            _ => false,
        };
        let closed = self.channels[idx].apply_ingress(item);
        if connected {
            self.feeds[idx].on_connected();
        }
        match closed {
            Some(reason) => {
                self.feeds[idx].on_disconnected();
                let sid = self.feeds[idx].session_id();
                let wm = self.channels[idx].watermark();
                let d = Diagnostic {
                    code: string_of("CONNECTION_CLOSED"),
                    severity: DiagnosticSeverity::Info,
                    broker_id: b,
                    session_id: sid,
                    mono_ns: wm,
                    sequence_range: None,
                    known_count: None,
                    detail_value: 0,
                    message: reason,
                };
                self.diagnostics.push(d);
            },
            None => {},
        }
        self.draining = Some(idx);
        self.forced = 0;
        proof {
            assert(self@.channels =~= v0.channels.update(idx as int, step.0));
            assert(self@.feeds =~= v0.feeds.update(idx as int, feed_after_item(v0.feeds[idx as int], item, step.1 is Some)));
            assert forall|i: int| 0 <= i < self.channels@.len() implies frames_headed_for((#[trigger] self.channels@[i])@, self.broker_ids@[i]) by {
                if i == idx as int {
                    assert(self.channels@[i]@ == step.0);
                    assert forall|k: int| 0 <= k < step.0.pending.len() implies (#[trigger] step.0.pending[k]).frame.header.broker_id == self.broker_ids@[i] by {
                        if k < v0.channels[i].pending.len() {
                            assert(frames_headed_for(old(self).channels@[i]@, self.broker_ids@[i]));
                        }
                    }
                } else {
                    assert(self.channels@[i] == old(self).channels@[i]);
                }
            }
        }
        Some(idx)
    }


    /// Processes the front frame of channel `i` if its feed can take it;
    /// otherwise changes nothing.
    fn process_front(&mut self, i: usize) -> (r: Option<(MonoNs, Vec<AcceptedTick>)>)
        requires
            old(self).wf(),
            i < old(self)@.ids.len(),
            old(self)@.channels[i as int].pending.len() > 0,
        ensures
            final(self).wf(),
            ({
                let v0 = old(self)@;
                let rf = v0.channels[i as int].pending[0];
                if frame_processable(v0.feeds[i as int], v0.slots, v0.periods, rf) {
                    &&& r matches Some((rx, acc)) && rx == rf.rx_mono_ns && processed_at(v0, final(self)@, i as int, acc@)
                    &&& final(self)@.draining == v0.draining
                    &&& final(self)@.forced == v0.forced
                } else {
                    r is None && final(self)@ == v0
                }
            }),
    {
        let ghost v0 = self@;
        let periods = self.book.periods_vec();
        let ok = match self.channels[i].front_frame() {
            Some(rf) => {
                let n = tick_count_of(rf);
                let h = self.feeds[i].health();
                h.total_frames_received < u64::MAX && n < u64::MAX && h.total_ticks_received <= u64::MAX - n
                    && self.book.counts_allow(n) && self.feeds[i].frame_fits(rf, periods.as_slice())
            },
            None => false,
        };
        if !ok {
            return None;
        }
        let rf = match self.channels[i].pop_frame() {
            Some(rf) => rf,
            None => {
                return None;
            },
        };
        proof {
            assert(frames_headed_for(old(self).channels@[i as int]@, self.broker_ids@[i as int]));
            assert(rf.frame.header.broker_id == self.broker_ids@[i as int]);
            assert(self.feeds@[i as int]@.broker_id == self.broker_ids@[i as int]);
        }
        let rx = rf.rx_mono_ns;
        let acc = self.feeds[i].process_frame(&rf, &mut self.book, &mut self.diagnostics);
        proof {
            assert(self@.channels =~= v0.channels.update(i as int, channel_pop(v0.channels[i as int])));
            assert(self@.feeds =~= v0.feeds.update(i as int, self@.feeds[i as int]));
            assert forall|j: int| 0 <= j < self.channels@.len() implies frames_headed_for((#[trigger] self.channels@[j])@, self.broker_ids@[j]) by {
                assert(frames_headed_for(old(self).channels@[j]@, self.broker_ids@[j]));
                if j == i as int {
                    assert forall|k: int| 0 <= k < self.channels@[j]@.pending.len() implies (#[trigger] self.channels@[j]@.pending[k]).frame.header.broker_id == self.broker_ids@[j] by {
                        assert(self.channels@[j]@.pending[k] == old(self).channels@[j]@.pending[k + 1]);
                    }
                }
            }
            assert forall|j: int| 0 <= j < self.feeds@.len() implies (#[trigger] self.feeds@[j])@.broker_id == self.broker_ids@[j] by {
                if j != i as int {
                    assert(self.feeds@[j] == old(self).feeds@[j]);
                }
            }
        }
        Some((rx, acc))
    }

    /// The connection state and watermark of every channel.
    fn marks(&self) -> (r: Vec<(bool, MonoNs)>)
        requires
            self.wf(),
        ensures
            r@ == channel_marks(self@.channels),
    {
        let mut out: Vec<(bool, MonoNs)> = Vec::new();
        let mut i: usize = 0;
        while i < self.channels.len()
            invariant
                i <= self.channels@.len(),
                out@.len() == i,
                forall|k: int| 0 <= k < i ==> out@[k] == (self.channels@[k]@.connected, self.channels@[k]@.watermark),
            decreases self.channels@.len() - i,
        {
            out.push((self.channels[i].is_connected(), self.channels[i].watermark()));
            i = i + 1;
        }
        proof {
            assert(out@ =~= channel_marks(self@.channels));
        }
        out
    }

    /// The merge keys of the channel fronts.
    fn fronts(&self) -> (r: Vec<MergeKey>)
        requires
            self.wf(),
        ensures
            r@ == front_keys(self@),
    {
        let mut out: Vec<MergeKey> = Vec::new();
        let mut i: usize = 0;
        while i < self.channels.len()
            invariant
                self.wf(),
                i <= self.channels@.len(),
                out@.len() == i,
                forall|k: int| 0 <= k < i ==> out@[k] == front_key_at(self@, k),
            decreases self.channels@.len() - i,
        {
            let k = match self.channels[i].front_key(self.broker_ids[i]) {
                Some(k) => k,
                None => MergeKey { rx_mono_ns: MonoNs(u64::MAX), broker_id: 0, connection_generation: 0, frame_index: 0 },
            };
            out.push(k);
            i = i + 1;
        }
        proof {
            assert(out@ =~= front_keys(self@));
        }
        out
    }

    /// One step of the engine. While the channel of the last item holds
    /// frames beyond its budget, its front frame is processed out of merge
    /// order. Then, once, its feed is marked overloaded and the overflow
    /// reported where frames were forced through, and the merge watermark
    /// is taken anew. After that, the front frame first in merge order
    /// among those received by the watermark is processed, until none is
    /// left. A frame whose counts would overflow is not processed.
    pub fn step(&mut self) -> (r: PipelineStep)
        requires
            old(self).wf(),
        ensures
            final(self).wf(),
            match old(self)@.draining {
                Some(d) => if draining_active(old(self)@, d) {
                    let rf = old(self)@.channels[d as int].pending[0];
                    if frame_processable(old(self)@.feeds[d as int], old(self)@.slots, old(self)@.periods, rf) {
                        &&& r matches PipelineStep::Processed { index, rx_mono_ns, accepted }
                            && index == d && rx_mono_ns == rf.rx_mono_ns && processed_at(old(self)@, final(self)@, d as int, accepted@)
                        &&& final(self)@.draining == Some(d)
                        &&& final(self)@.forced == (if old(self)@.forced < u64::MAX { (old(self)@.forced + 1) as u64 } else { u64::MAX })
                    } else {
                        r matches PipelineStep::Blocked { index } && index == d && final(self)@ == old(self)@
                    }
                } else {
                    r is Settled && settled(old(self)@, final(self)@, d as int)
                },
                None => {
                    let fronts = front_keys(old(self)@);
                    let wm = old(self)@.watermark;
                    &&& r is Idle <==> forall|j: int| 0 <= j < fronts.len() ==> !mergeable(#[trigger] fronts[j], wm)
                    &&& r is Idle ==> final(self)@ == old(self)@
                    &&& !(r is Settled)
                    &&& r matches PipelineStep::Processed { index, rx_mono_ns, accepted } ==> {
                        let rf = old(self)@.channels[index as int].pending[0];
                        &&& merge_pick(fronts, wm, index as int)
                        &&& frame_processable(old(self)@.feeds[index as int], old(self)@.slots, old(self)@.periods, rf)
                        &&& rx_mono_ns == rf.rx_mono_ns
                        &&& processed_at(old(self)@, final(self)@, index as int, accepted@)
                        &&& final(self)@.draining is None
                        &&& final(self)@.forced == old(self)@.forced
                    }
                    &&& r matches PipelineStep::Blocked { index } ==> {
                        let rf = old(self)@.channels[index as int].pending[0];
                        &&& merge_pick(fronts, wm, index as int)
                        &&& !frame_processable(old(self)@.feeds[index as int], old(self)@.slots, old(self)@.periods, rf)
                        &&& final(self)@ == old(self)@
                    }
                },
            },
    {
        let ghost v0 = self@;
        match self.draining {
            Some(d) => {
                if self.channels[d].over_capacity() && self.channels[d].pending_len() > 0 {
                    match self.process_front(d) {
                        Some((rx, acc)) => {
                            self.forced = self.forced.saturating_add(1);
                            PipelineStep::Processed { index: d, rx_mono_ns: rx, accepted: acc }
                        },
                        None => PipelineStep::Blocked { index: d },
                    }
                } else {
                    if self.forced > 0 {
                        self.feeds[d].mark_engine_overload();
                        let sid = self.feeds[d].session_id();
                        let diag = Diagnostic {
                            code: string_of("MERGE_BACKPRESSURE"),
                            severity: DiagnosticSeverity::Warn,
                            broker_id: self.broker_ids[d],
                            session_id: sid,
                            mono_ns: self.watermark,
                            sequence_range: None,
                            known_count: Some(self.forced),
                            detail_value: 0,
                            message: string_of("Merge wait budget exhausted; processed durable frames out of watermark order"),
                        };
                        self.diagnostics.push(diag);
                    }
                    let marks = self.marks();
                    self.watermark = calculate_global_watermark(marks.as_slice());
                    self.draining = None;
                    self.forced = 0;
                    proof {
                        assert(self@.feeds =~= v0.feeds.update(d as int, if v0.forced > 0 { overload_marked(v0.feeds[d as int]) } else { v0.feeds[d as int] }));
                        assert forall|j: int| 0 <= j < self.feeds@.len() implies (#[trigger] self.feeds@[j])@.broker_id == self.broker_ids@[j] by {
                            if j != d as int {
                                assert(self.feeds@[j] == old(self).feeds@[j]);
                            }
                        }
                    }
                    PipelineStep::Settled
                }
            },
            None => {
                let fronts = self.fronts();
                match select_next_frame(fronts.as_slice(), self.watermark) {
                    Some(i) => {
                        proof {
                            assert(mergeable(fronts@[i as int], self.watermark));
                            assert(front_key_at(self@, i as int) == fronts@[i as int]);
                            assert(self@.channels[i as int].pending.len() > 0) by {
                                if self@.channels[i as int].pending.len() == 0 {
                                    assert(!key_less(key_bound(), key_bound()));
                                }
                            }
                        }
                        match self.process_front(i) {
                            Some((rx, acc)) => PipelineStep::Processed { index: i, rx_mono_ns: rx, accepted: acc },
                            None => PipelineStep::Blocked { index: i },
                        }
                    },
                    None => PipelineStep::Idle,
                }
            },
        }
    }


    /// The number of configured brokers.
    pub fn len(&self) -> (r: usize)
        requires
            self.wf(),
        ensures
            r == self@.ids.len(),
    {
        self.broker_ids.len()
    }

    /// The configured brokers, in order.
    pub fn broker_ids(&self) -> (r: Vec<BrokerId>)
        ensures
            r@ == self@.ids,
    {
        let mut out: Vec<BrokerId> = Vec::new();
        let mut i: usize = 0;
        while i < self.broker_ids.len()
            invariant
                i <= self.broker_ids@.len(),
                out@ == self.broker_ids@.take(i as int),
            decreases self.broker_ids@.len() - i,
        {
            out.push(self.broker_ids[i]);
            proof {
                assert(out@ =~= self.broker_ids@.take(i as int + 1));
            }
            i = i + 1;
        }
        proof {
            assert(self.broker_ids@.take(i as int) =~= self.broker_ids@);
        }
        out
    }

    /// Whether the channel at `i` has a connection.
    pub fn is_connected(&self, i: usize) -> (r: bool)
        requires
            self.wf(),
            i < self@.ids.len(),
        ensures
            r == self@.channels[i as int].connected,
    {
        self.channels[i].is_connected()
    }

    /// The health of the feed at `i`, as recorded.
    pub fn health(&self, i: usize) -> (r: HealthState)
        requires
            self.wf(),
            i < self@.ids.len(),
        ensures
            r == self@.feeds[i as int].health,
    {
        self.feeds[i].health()
    }

    /// The UTC offset of the feed at `i`, and whether it is verified.
    pub fn utc_offset(&self, i: usize) -> (r: (i32, bool))
        requires
            self.wf(),
            i < self@.ids.len(),
        ensures
            r == (self@.feeds[i as int].utc_offset_sec, self@.feeds[i as int].utc_verified),
    {
        self.feeds[i].utc_offset()
    }

    /// The merge watermark.
    pub fn watermark(&self) -> (r: MonoNs)
        ensures
            r == self@.watermark,
    {
        self.watermark
    }

    /// The diagnostics kept, oldest first.
    pub fn diagnostics(&self) -> (r: Vec<Diagnostic>)
        ensures
            r@ == self@.diagnostics,
    {
        self.diagnostics.to_vec()
    }

    /// The candles of the brokers `broker_ids` for the `num_slots` slots of
    /// length `period_ms` ending with the slot that holds `now`; `None`
    /// where those slots are not all instants.
    pub fn candle_view(&self, period_ms: i64, broker_ids: &[BrokerId], num_slots: usize, now: UtcMs) -> (r: Option<CandleView>)
        requires
            self.wf(),
        ensures
            r is None <==> !view_fits(now.0, period_ms, num_slots as nat),
            r matches Some(v) ==> {
                &&& v.period_ms == period_ms
                &&& v.slot_starts@ == view_starts(now.0, period_ms, num_slots as nat)
                &&& forall|b: BrokerId| #[trigger] v.slots_by_broker@.contains_key(b) <==> broker_ids@.contains(b)
                &&& forall|b: BrokerId| #[trigger] v.slots_by_broker@.contains_key(b) ==> v.slots_by_broker@[b]@ == view_row(
                    self@.slots,
                    period_ms,
                    b,
                    view_starts(now.0, period_ms, num_slots as nat),
                    now,
                )
            },
    {
        if view_fits_exec(now.0, period_ms, num_slots) {
            Some(self.book.get_candle_view(period_ms, broker_ids, num_slots, now))
        } else {
            None
        }
    }

}

/// The merge order is deterministic: at most one channel is the one whose
/// front the merge takes next.
pub proof fn lemma_merge_pick_unique(fronts: Seq<MergeKey>, wm: MonoNs, i: int, j: int)
    requires
        merge_pick(fronts, wm, i),
        merge_pick(fronts, wm, j),
    ensures
        i == j,
{
    if i < j {
        assert(mergeable(fronts[i], wm));
        assert(key_less(fronts[j], fronts[i]));
    } else if j < i {
        assert(mergeable(fronts[j], wm));
        assert(key_less(fronts[i], fronts[j]));
    }
}

proof fn lemma_min_connected_below(s: Seq<(bool, MonoNs)>, i: int)
    requires
        0 <= i < s.len(),
        s[i].0,
    ensures
        min_connected_watermark(s) <= s[i].1.0,
    decreases s.len(),
{
    if i < s.len() - 1 {
        lemma_min_connected_below(s.drop_last(), i);
    }
}

/// The watermark merge waits for every connected feed: a frame received by
/// the merge watermark was received no later than the watermark of each
/// connected channel.
pub proof fn lemma_merge_waits_for_connected_feeds(s: Seq<(bool, MonoNs)>, rx: MonoNs, i: int)
    requires
        rx.0 <= global_watermark(s),
        0 <= i < s.len(),
        s[i].0,
    ensures
        rx.0 <= s[i].1.0,
{
    lemma_min_connected_below(s, i);
}

} // verus!
