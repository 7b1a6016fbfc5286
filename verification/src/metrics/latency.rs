//! Latency instrumentation across the pipeline stages: monotonic stage
//! timestamps, fixed-size rings of recent samples, and nearest-rank
//! percentiles over them.

use crate::contracts::types::MonoNs;
use vstd::prelude::*;

verus! {

/// Number of samples a ring keeps.
pub const LATENCY_RING_CAPACITY: usize = 2048;

/// The stages of the pipeline.
#[derive(Debug, Clone, Copy, PartialEq, Eq, Hash, Structural)]
pub enum PipelineStage {
    TickToEngine,
    EngineToProjection,
    ProjectionToSnapshot,
    SnapshotToUi,
    TotalPipeline,
}

/// Monotonic timestamps of one tick as it passes the pipeline: arrival,
/// engine, projection, snapshot, render. Zero means not yet reached.
#[derive(Debug, Clone, Copy, PartialEq, Eq, Structural)]
pub struct PipelineTimestamps {
    pub rx_mono_ns: MonoNs,
    pub engine_mono_ns: MonoNs,
    pub projection_mono_ns: MonoNs,
    pub snapshot_mono_ns: MonoNs,
    pub render_mono_ns: MonoNs,
}

/// The time from `from` to `to`, where `from` was reached and `to` is not
/// earlier.
pub open spec fn stage_delta(from: MonoNs, to: MonoNs) -> Option<u64> {
    if from.0 > 0 && to.0 >= from.0 {
        Some((to.0 - from.0) as u64)
    } else {
        None
    }
}

fn delta(from: MonoNs, to: MonoNs) -> (r: Option<u64>)
    ensures
        r == stage_delta(from, to),
{
    if from.0 > 0 && to.0 >= from.0 {
        Some(to.0 - from.0)
    } else {
        None
    }
}

impl Default for PipelineTimestamps {
    fn default() -> (r: Self)
        ensures
            r == PipelineTimestamps::new(MonoNs(0)),
    {
        PipelineTimestamps::new(MonoNs(0))
    }
}

impl PipelineTimestamps {
    /// Timestamps of a tick that has only arrived.
    #[verifier::allow_in_spec]
    pub fn new(rx_mono_ns: MonoNs) -> Self
        returns
            (PipelineTimestamps {
                rx_mono_ns,
                engine_mono_ns: MonoNs(0),
                projection_mono_ns: MonoNs(0),
                snapshot_mono_ns: MonoNs(0),
                render_mono_ns: MonoNs(0),
            }),
    {
        PipelineTimestamps {
            rx_mono_ns,
            engine_mono_ns: MonoNs(0),
            projection_mono_ns: MonoNs(0),
            snapshot_mono_ns: MonoNs(0),
            render_mono_ns: MonoNs(0),
        }
    }

    pub fn with_engine(self, engine_mono_ns: MonoNs) -> (r: Self)
        ensures
            r == (PipelineTimestamps { engine_mono_ns, ..self }),
    {
        PipelineTimestamps { engine_mono_ns, ..self }
    }

    pub fn with_projection(self, projection_mono_ns: MonoNs) -> (r: Self)
        ensures
            r == (PipelineTimestamps { projection_mono_ns, ..self }),
    {
        PipelineTimestamps { projection_mono_ns, ..self }
    }

    pub fn with_snapshot(self, snapshot_mono_ns: MonoNs) -> (r: Self)
        ensures
            r == (PipelineTimestamps { snapshot_mono_ns, ..self }),
    {
        PipelineTimestamps { snapshot_mono_ns, ..self }
    }

    pub fn with_render(self, render_mono_ns: MonoNs) -> (r: Self)
        ensures
            r == (PipelineTimestamps { render_mono_ns, ..self }),
    {
        PipelineTimestamps { render_mono_ns, ..self }
    }

    pub fn mark_engine(&mut self, now: MonoNs)
        ensures
            *final(self) == (PipelineTimestamps { engine_mono_ns: now, ..*old(self) }),
    {
        self.engine_mono_ns = now;
    }

    pub fn mark_projection(&mut self, now: MonoNs)
        ensures
            *final(self) == (PipelineTimestamps { projection_mono_ns: now, ..*old(self) }),
    {
        self.projection_mono_ns = now;
    }

    pub fn mark_snapshot(&mut self, now: MonoNs)
        ensures
            *final(self) == (PipelineTimestamps { snapshot_mono_ns: now, ..*old(self) }),
    {
        self.snapshot_mono_ns = now;
    }

    pub fn mark_render(&mut self, now: MonoNs)
        ensures
            *final(self) == (PipelineTimestamps { render_mono_ns: now, ..*old(self) }),
    {
        self.render_mono_ns = now;
    }

    /// Arrival to engine, when both were reached in order.
    pub fn tick_to_engine_ns(&self) -> (r: Option<u64>)
        ensures
            r == stage_delta(self.rx_mono_ns, self.engine_mono_ns),
    {
        delta(self.rx_mono_ns, self.engine_mono_ns)
    }

    /// Engine to projection, when both were reached in order.
    pub fn engine_to_projection_ns(&self) -> (r: Option<u64>)
        ensures
            r == stage_delta(self.engine_mono_ns, self.projection_mono_ns),
    {
        delta(self.engine_mono_ns, self.projection_mono_ns)
    }

    /// Projection to snapshot, when both were reached in order.
    pub fn projection_to_snapshot_ns(&self) -> (r: Option<u64>)
        ensures
            r == stage_delta(self.projection_mono_ns, self.snapshot_mono_ns),
    {
        delta(self.projection_mono_ns, self.snapshot_mono_ns)
    }

    /// Snapshot to render, when both were reached in order.
    pub fn snapshot_to_ui_ns(&self) -> (r: Option<u64>)
        ensures
            r == stage_delta(self.snapshot_mono_ns, self.render_mono_ns),
    {
        delta(self.snapshot_mono_ns, self.render_mono_ns)
    }

    /// Arrival to render, when both were reached in order.
    pub fn total_latency_ns(&self) -> (r: Option<u64>)
        ensures
            r == stage_delta(self.rx_mono_ns, self.render_mono_ns),
    {
        delta(self.rx_mono_ns, self.render_mono_ns)
    }
}

/// Nearest-rank percentiles of a window of samples, in nanoseconds.
#[derive(Debug, Clone, Copy, PartialEq, Eq, Structural)]
pub struct PercentileNs {
    pub sample_count: u64,
    pub p50_ns: u64,
    pub p95_ns: u64,
    pub p99_ns: u64,
    pub max_ns: u64,
}

/// `s` is in ascending order.
pub open spec fn sorted_asc(s: Seq<u64>) -> bool {
    forall|i: int, j: int| 0 <= i <= j < s.len() ==> s[i] <= s[j]
}

/// The index of the nearest-rank `pct`-th percentile among `n` sorted
/// samples: rank `ceil(n * pct / 100)`, clamped to `1..=n`, less one.
pub open spec fn percentile_index(n: nat, pct: nat) -> int {
    let rank = (n * pct + 99) / 100;
    if rank < 1 {
        0
    } else if rank > n {
        n - 1
    } else {
        rank - 1
    }
}

/// `r` holds the percentiles of the window `w` of samples, `total` samples
/// having been recorded in all.
pub open spec fn percentiles_of(w: Seq<u64>, total: u64, r: PercentileNs) -> bool {
    &&& r.sample_count == total
    &&& if w.len() == 0 {
        r.p50_ns == 0 && r.p95_ns == 0 && r.p99_ns == 0 && r.max_ns == 0
    } else {
        exists|s: Seq<u64>|
            #[trigger] sorted_asc(s) && s.to_multiset() == w.to_multiset() && r.p50_ns
                == s[percentile_index(w.len(), 50)] && r.p95_ns == s[percentile_index(w.len(), 95)]
                && r.p99_ns == s[percentile_index(w.len(), 99)] && r.max_ns == s[w.len() - 1]
    }
}

/// Calls `sort_unstable` on the samples. Claimed, as its documentation
/// says: afterwards they are in ascending order and are the same samples.
#[verifier::external_body]
fn sort_samples(v: &mut Vec<u64>)
    ensures
        sorted_asc(final(v)@),
        final(v)@.to_multiset() == old(v)@.to_multiset(),
{
    v.sort_unstable();
}

/// The slot of the `k`-th of the `v` most recent samples, the ring's next
/// write position being `w`.
pub open spec fn ring_slot(w: int, v: int, k: int) -> int {
    (w + 2048 - v + k) % 2048
}

/// A fixed-size ring of the most recent latency samples, in nanoseconds.
#[derive(Clone)]
pub struct LatencyRingBuffer {
    buffer: Vec<u64>,
    write_idx: usize,
    valid_count: usize,
    total_samples: u64,
    recent: Ghost<Seq<u64>>,
}

impl View for LatencyRingBuffer {
    type V = Seq<u64>;

    /// The samples recorded since the ring was made or last cleared.
    closed spec fn view(&self) -> Seq<u64> {
        self.recent@
    }
}

/// The samples a ring keeps out of those recorded: the last
/// `LATENCY_RING_CAPACITY` of them.
pub open spec fn ring_window(recorded: Seq<u64>) -> Seq<u64> {
    if recorded.len() <= 2048 {
        recorded
    } else {
        recorded.subrange(recorded.len() - 2048, recorded.len() as int)
    }
}

/// The count of recorded samples, saturating at `u64::MAX`.
pub open spec fn saturating_count(n: nat) -> u64 {
    if n > u64::MAX {
        u64::MAX
    } else {
        n as u64
    }
}

impl LatencyRingBuffer {
    /// The ring's slots hold the most recent samples, oldest at the slot
    /// after the next write position.
    pub closed spec fn wf(&self) -> bool {
        let n = self.recent@.len();
        let v = self.valid_count as int;
        let w = self.write_idx as int;
        &&& self.buffer@.len() == 2048
        &&& w < 2048
        &&& v == if n < 2048 {
            n as int
        } else {
            2048
        }
        &&& v < 2048 ==> w == v
        &&& self.total_samples == saturating_count(n)
        &&& forall|k: int|
            0 <= k < v ==> #[trigger] self.buffer@[ring_slot(w, v, k)] == self.recent@[n - v + k]
    }

    /// An empty ring.
    pub fn new() -> (r: Self)
        ensures
            r.wf(),
            r@ == Seq::<u64>::empty(),
    {
        LatencyRingBuffer {
            buffer: vec![0u64; LATENCY_RING_CAPACITY],
            write_idx: 0,
            valid_count: 0,
            total_samples: 0,
            recent: Ghost(Seq::empty()),
        }
    }

    /// Records one sample, replacing the oldest once the ring is full.
    pub fn record(&mut self, latency_ns: u64)
        requires
            old(self).wf(),
        ensures
            final(self).wf(),
            final(self)@ == old(self)@.push(latency_ns),
    {
        let w = self.write_idx;
        let v = self.valid_count;
        let ghost old_buf = self.buffer@;
        let ghost n = self.recent@.len();
        let ghost recent2 = self.recent@.push(latency_ns);
        let next_w = (w + 1) & (LATENCY_RING_CAPACITY - 1);
        let w1: usize = w + 1;
        assert(next_w == w1 & 2047usize);
        assert(next_w == w1 % 2048) by (bit_vector)
            requires
                w1 <= 2048,
                next_w == w1 & 2047usize,
        ;
        let next_v = if v < LATENCY_RING_CAPACITY {
            v + 1
        } else {
            v
        };
        let next_total = self.total_samples.saturating_add(1);
        self.buffer.set(w, latency_ns);
        let ghost buf = self.buffer;
        proof {
            assert forall|k: int| 0 <= k < next_v implies #[trigger] buf@[ring_slot(
                next_w as int,
                next_v as int,
                k,
            )] == recent2[n + 1 - next_v + k] by {
                if v < 2048 {
                    assert(ring_slot(next_w as int, next_v as int, k) == k);
                    if k < v {
                        assert(ring_slot(w as int, v as int, k) == k);
                    }
                } else if k < 2047 {
                    assert(ring_slot(next_w as int, next_v as int, k) == ring_slot(
                        w as int,
                        v as int,
                        k + 1,
                    ));
                    assert(ring_slot(w as int, v as int, k + 1) != w);
                    assert(old_buf[ring_slot(w as int, v as int, k + 1)] == self.recent@[n - v + k
                        + 1]);
                } else {
                    assert(ring_slot(next_w as int, next_v as int, k) == w);
                }
            }
        }
        self.write_idx = next_w;
        self.valid_count = next_v;
        self.total_samples = next_total;
        self.recent = Ghost(recent2);
    }

    /// Samples recorded since the last clear, saturating.
    pub fn total_samples(&self) -> (r: u64)
        requires
            self.wf(),
        ensures
            r == saturating_count(self@.len()),
    {
        self.total_samples
    }

    /// How many samples the ring holds.
    pub fn valid_count(&self) -> (r: usize)
        requires
            self.wf(),
        ensures
            r == ring_window(self@).len(),
    {
        self.valid_count
    }

    /// The ring holds no sample.
    pub fn is_empty(&self) -> (r: bool)
        requires
            self.wf(),
        ensures
            r <==> self@.len() == 0,
    {
        self.valid_count == 0
    }

    /// Forgets every sample.
    pub fn clear(&mut self)
        requires
            old(self).wf(),
        ensures
            final(self).wf(),
            final(self)@ == Seq::<u64>::empty(),
    {
        self.write_idx = 0;
        self.valid_count = 0;
        self.total_samples = 0;
        self.recent = Ghost(Seq::empty());
    }

    /// The window as held in the ring's slots, oldest first.
    spec fn held(self) -> Seq<u64> {
        self.buffer@.take(self.valid_count as int)
    }

    /// Nearest-rank percentiles (50th, 95th, 99th and the maximum) of the
    /// samples the ring holds.
    pub fn compute_percentiles_ns(&self) -> (r: PercentileNs)
        requires
            self.wf(),
        ensures
            percentiles_of(ring_window(self@), saturating_count(self@.len()), r),
    {
        proof {
            self.lemma_window_multiset();
        }
        let n = self.valid_count;
        if n == 0 {
            return PercentileNs { sample_count: self.total_samples, p50_ns: 0, p95_ns: 0, p99_ns: 0, max_ns: 0 };
        }
        let mut sorted: Vec<u64> = Vec::new();
        let mut i: usize = 0;
        while i < n
            invariant
                n <= self.buffer@.len(),
                i <= n,
                sorted@ == self.buffer@.take(i as int),
            decreases n - i,
        {
            sorted.push(self.buffer[i]);
            assert(self.buffer@.take(i + 1) =~= self.buffer@.take(i as int).push(self.buffer@[i as int]));
            i = i + 1;
        }
        sort_samples(&mut sorted);
        assert(sorted@.len() == n) by {
            sorted@.to_multiset_ensures();
            self.buffer@.take(n as int).to_multiset_ensures();
        }
        let r = PercentileNs {
            sample_count: self.total_samples,
            p50_ns: sorted[nearest_rank_index(n, 50)],
            p95_ns: sorted[nearest_rank_index(n, 95)],
            p99_ns: sorted[nearest_rank_index(n, 99)],
            max_ns: sorted[n - 1],
        };
        assert(sorted_asc(sorted@));
        r
    }

    proof fn lemma_window_multiset(self)
        requires
            self.wf(),
        ensures
            self.held().to_multiset() == ring_window(self@).to_multiset(),
            self.held().len() == ring_window(self@).len(),
    {
        let n = self.recent@.len();
        let v = self.valid_count as int;
        let w = self.write_idx as int;
        let win = ring_window(self@);
        if v < 2048 {
            assert forall|k: int| 0 <= k < v implies self.held()[k] == win[k] by {
                assert(ring_slot(w, v, k) == k);
            }
            assert(self.held() =~= win);
        } else {
            let s = self.buffer@;
            assert(self.held() =~= s);
            assert forall|k: int| 0 <= k < 2048 implies (s.skip(w) + s.take(w))[k] == win[k] by {
                assert(ring_slot(w, v, k) == (w + k) % 2048);
                assert(self.buffer@[ring_slot(w, v, k)] == self.recent@[n - v + k]);
                if k < 2048 - w {
                    assert((w + k) % 2048 == w + k);
                } else {
                    assert((w + k) % 2048 == w + k - 2048);
                }
            }
            assert(s.skip(w) + s.take(w) =~= win);
            assert(s =~= s.take(w) + s.skip(w));
            vstd::seq_lib::lemma_seq_union_to_multiset_commutative(s.take(w), s.skip(w));
        }
    }
}

/// `percentile_index` computed.
fn nearest_rank_index(n: usize, pct: usize) -> (r: usize)
    requires
        1 <= n <= 2048,
        pct <= 100,
    ensures
        r == percentile_index(n as nat, pct as nat),
        r < n,
{
    assert(n * pct <= 204800) by (nonlinear_arith)
        requires
            n <= 2048,
            pct <= 100,
    ;
    let rank = (n * pct + 99) / 100;
    if rank < 1 {
        0
    } else if rank > n {
        n - 1
    } else {
        rank - 1
    }
}

impl Default for LatencyRingBuffer {
    fn default() -> (r: Self)
        ensures
            r.wf(),
            r@ == Seq::<u64>::empty(),
    {
        LatencyRingBuffer::new()
    }
}

/// Per-stage latency rings, the current queue depth and the count of
/// dropped snapshots.
#[derive(Clone)]
pub struct LatencyMetrics {
    tick_to_engine: LatencyRingBuffer,
    engine_to_projection: LatencyRingBuffer,
    projection_to_snapshot: LatencyRingBuffer,
    snapshot_to_ui: LatencyRingBuffer,
    total_pipeline: LatencyRingBuffer,
    queue_depth: usize,
    dropped_snapshots: u64,
}

/// The abstract state of a set of latency metrics: the samples recorded
/// for each stage since the last clear, the queue depth, and the dropped
/// snapshot count.
pub struct LatencyMetricsView {
    pub tick_to_engine: Seq<u64>,
    pub engine_to_projection: Seq<u64>,
    pub projection_to_snapshot: Seq<u64>,
    pub snapshot_to_ui: Seq<u64>,
    pub total_pipeline: Seq<u64>,
    pub queue_depth: usize,
    pub dropped_snapshots: u64,
}

impl View for LatencyMetrics {
    type V = LatencyMetricsView;

    closed spec fn view(&self) -> LatencyMetricsView {
        LatencyMetricsView {
            tick_to_engine: self.tick_to_engine@,
            engine_to_projection: self.engine_to_projection@,
            projection_to_snapshot: self.projection_to_snapshot@,
            snapshot_to_ui: self.snapshot_to_ui@,
            total_pipeline: self.total_pipeline@,
            queue_depth: self.queue_depth,
            dropped_snapshots: self.dropped_snapshots,
        }
    }
}

/// The metrics of a fresh or cleared tracker.
pub open spec fn empty_metrics() -> LatencyMetricsView {
    LatencyMetricsView {
        tick_to_engine: Seq::empty(),
        engine_to_projection: Seq::empty(),
        projection_to_snapshot: Seq::empty(),
        snapshot_to_ui: Seq::empty(),
        total_pipeline: Seq::empty(),
        queue_depth: 0,
        dropped_snapshots: 0,
    }
}

/// The latency between two monotonic readings, zero where they run
/// backwards.
pub open spec fn elapsed(from: MonoNs, to: MonoNs) -> u64 {
    if to.0 >= from.0 {
        (to.0 - from.0) as u64
    } else {
        0
    }
}

/// `m` after `x` was recorded for the stage of `v`, where `v` is
/// `m.tick_to_engine` ... `m.total_pipeline`.
pub open spec fn stage_pushed(m: LatencyMetricsView, stage: PipelineStage, x: u64) -> LatencyMetricsView {
    match stage {
        PipelineStage::TickToEngine => LatencyMetricsView { tick_to_engine: m.tick_to_engine.push(x), ..m },
        PipelineStage::EngineToProjection => LatencyMetricsView { engine_to_projection: m.engine_to_projection.push(x), ..m },
        PipelineStage::ProjectionToSnapshot => LatencyMetricsView { projection_to_snapshot: m.projection_to_snapshot.push(x), ..m },
        PipelineStage::SnapshotToUi => LatencyMetricsView { snapshot_to_ui: m.snapshot_to_ui.push(x), ..m },
        PipelineStage::TotalPipeline => LatencyMetricsView { total_pipeline: m.total_pipeline.push(x), ..m },
    }
}

/// `m` after `d` was recorded for `stage` if `d` is present.
pub open spec fn stage_pushed_opt(m: LatencyMetricsView, stage: PipelineStage, d: Option<u64>) -> LatencyMetricsView {
    match d {
        Some(x) => stage_pushed(m, stage, x),
        None => m,
    }
}

impl LatencyMetrics {
    /// Every ring is well formed.
    pub closed spec fn wf(&self) -> bool {
        &&& self.tick_to_engine.wf()
        &&& self.engine_to_projection.wf()
        &&& self.projection_to_snapshot.wf()
        &&& self.snapshot_to_ui.wf()
        &&& self.total_pipeline.wf()
    }
}

impl Default for LatencyMetrics {
    fn default() -> (r: Self)
        ensures
            r.wf(),
            r@ == empty_metrics(),
    {
        LatencyMetrics {
            tick_to_engine: LatencyRingBuffer::new(),
            engine_to_projection: LatencyRingBuffer::new(),
            projection_to_snapshot: LatencyRingBuffer::new(),
            snapshot_to_ui: LatencyRingBuffer::new(),
            total_pipeline: LatencyRingBuffer::new(),
            queue_depth: 0,
            dropped_snapshots: 0,
        }
    }
}

impl LatencyMetrics {
    /// A tracker with no samples.
    pub fn new() -> (r: Self)
        ensures
            r.wf(),
            r@ == empty_metrics(),
    {
        LatencyMetrics::default()
    }

    /// Records arrival to engine processing.
    pub fn record_tick_to_engine(&mut self, rx_ns: MonoNs, engine_ns: MonoNs)
        requires
            old(self).wf(),
        ensures
            final(self).wf(),
            final(self)@ == stage_pushed(old(self)@, PipelineStage::TickToEngine, elapsed(rx_ns, engine_ns)),
    {
        let d = engine_ns.saturating_sub(rx_ns).0;
        self.tick_to_engine.record(d);
    }

    /// Records engine processing to projection update.
    pub fn record_engine_to_projection(&mut self, engine_ns: MonoNs, proj_ns: MonoNs)
        requires
            old(self).wf(),
        ensures
            final(self).wf(),
            final(self)@ == stage_pushed(old(self)@, PipelineStage::EngineToProjection, elapsed(engine_ns, proj_ns)),
    {
        let d = proj_ns.saturating_sub(engine_ns).0;
        self.engine_to_projection.record(d);
    }

    /// Records projection update to snapshot publication.
    pub fn record_projection_to_snapshot(&mut self, proj_ns: MonoNs, snap_ns: MonoNs)
        requires
            old(self).wf(),
        ensures
            final(self).wf(),
            final(self)@ == stage_pushed(old(self)@, PipelineStage::ProjectionToSnapshot, elapsed(proj_ns, snap_ns)),
    {
        let d = snap_ns.saturating_sub(proj_ns).0;
        self.projection_to_snapshot.record(d);
    }

    /// Records snapshot publication to render.
    pub fn record_snapshot_to_ui(&mut self, snap_ns: MonoNs, render_ns: MonoNs)
        requires
            old(self).wf(),
        ensures
            final(self).wf(),
            final(self)@ == stage_pushed(old(self)@, PipelineStage::SnapshotToUi, elapsed(snap_ns, render_ns)),
    {
        let d = render_ns.saturating_sub(snap_ns).0;
        self.snapshot_to_ui.record(d);
    }

    /// Records arrival to render.
    pub fn record_total_pipeline(&mut self, rx_ns: MonoNs, render_ns: MonoNs)
        requires
            old(self).wf(),
        ensures
            final(self).wf(),
            final(self)@ == stage_pushed(old(self)@, PipelineStage::TotalPipeline, elapsed(rx_ns, render_ns)),
    {
        let d = render_ns.saturating_sub(rx_ns).0;
        self.total_pipeline.record(d);
    }

    /// Records every stage of `ts` that was reached in order.
    pub fn record_pipeline_timestamps(&mut self, ts: &PipelineTimestamps)
        requires
            old(self).wf(),
        ensures
            final(self).wf(),
            final(self)@ == stage_pushed_opt(
                stage_pushed_opt(
                    stage_pushed_opt(
                        stage_pushed_opt(
                            stage_pushed_opt(old(self)@, PipelineStage::TickToEngine, stage_delta(ts.rx_mono_ns, ts.engine_mono_ns)),
                            PipelineStage::EngineToProjection,
                            stage_delta(ts.engine_mono_ns, ts.projection_mono_ns),
                        ),
                        PipelineStage::ProjectionToSnapshot,
                        stage_delta(ts.projection_mono_ns, ts.snapshot_mono_ns),
                    ),
                    PipelineStage::SnapshotToUi,
                    stage_delta(ts.snapshot_mono_ns, ts.render_mono_ns),
                ),
                PipelineStage::TotalPipeline,
                stage_delta(ts.rx_mono_ns, ts.render_mono_ns),
            ),
    {
        if ts.rx_mono_ns.0 > 0 && ts.engine_mono_ns.0 >= ts.rx_mono_ns.0 {
            self.record_tick_to_engine(ts.rx_mono_ns, ts.engine_mono_ns);
        }
        if ts.engine_mono_ns.0 > 0 && ts.projection_mono_ns.0 >= ts.engine_mono_ns.0 {
            self.record_engine_to_projection(ts.engine_mono_ns, ts.projection_mono_ns);
        }
        if ts.projection_mono_ns.0 > 0 && ts.snapshot_mono_ns.0 >= ts.projection_mono_ns.0 {
            self.record_projection_to_snapshot(ts.projection_mono_ns, ts.snapshot_mono_ns);
        }
        if ts.snapshot_mono_ns.0 > 0 && ts.render_mono_ns.0 >= ts.snapshot_mono_ns.0 {
            self.record_snapshot_to_ui(ts.snapshot_mono_ns, ts.render_mono_ns);
        }
        if ts.rx_mono_ns.0 > 0 && ts.render_mono_ns.0 >= ts.rx_mono_ns.0 {
            self.record_total_pipeline(ts.rx_mono_ns, ts.render_mono_ns);
        }
    }

    /// Sets the current queue depth.
    pub fn record_queue_depth(&mut self, depth: usize)
        requires
            old(self).wf(),
        ensures
            final(self).wf(),
            final(self)@ == (LatencyMetricsView { queue_depth: depth, ..old(self)@ }),
    {
        self.queue_depth = depth;
    }

    /// Counts one more dropped snapshot, saturating.
    pub fn increment_dropped_snapshots(&mut self)
        requires
            old(self).wf(),
        ensures
            final(self).wf(),
            final(self)@ == (LatencyMetricsView {
                dropped_snapshots: saturating_count((old(self)@.dropped_snapshots + 1) as nat),
                ..old(self)@
            }),
    {
        self.dropped_snapshots = self.dropped_snapshots.saturating_add(1);
    }

    pub fn queue_depth(&self) -> (r: usize)
        ensures
            r == self@.queue_depth,
    {
        self.queue_depth
    }

    pub fn dropped_snapshots(&self) -> (r: u64)
        ensures
            r == self@.dropped_snapshots,
    {
        self.dropped_snapshots
    }

    pub fn tick_to_engine(&self) -> (r: &LatencyRingBuffer)
        requires
            self.wf(),
        ensures
            r.wf(),
            r@ == self@.tick_to_engine,
    {
        &self.tick_to_engine
    }

    pub fn engine_to_projection(&self) -> (r: &LatencyRingBuffer)
        requires
            self.wf(),
        ensures
            r.wf(),
            r@ == self@.engine_to_projection,
    {
        &self.engine_to_projection
    }

    pub fn projection_to_snapshot(&self) -> (r: &LatencyRingBuffer)
        requires
            self.wf(),
        ensures
            r.wf(),
            r@ == self@.projection_to_snapshot,
    {
        &self.projection_to_snapshot
    }

    pub fn snapshot_to_ui(&self) -> (r: &LatencyRingBuffer)
        requires
            self.wf(),
        ensures
            r.wf(),
            r@ == self@.snapshot_to_ui,
    {
        &self.snapshot_to_ui
    }

    pub fn total_pipeline(&self) -> (r: &LatencyRingBuffer)
        requires
            self.wf(),
        ensures
            r.wf(),
            r@ == self@.total_pipeline,
    {
        &self.total_pipeline
    }

    /// Forgets every sample, the queue depth and the dropped count.
    pub fn clear(&mut self)
        requires
            old(self).wf(),
        ensures
            final(self).wf(),
            final(self)@ == empty_metrics(),
    {
        self.tick_to_engine.clear();
        self.engine_to_projection.clear();
        self.projection_to_snapshot.clear();
        self.snapshot_to_ui.clear();
        self.total_pipeline.clear();
        self.queue_depth = 0;
        self.dropped_snapshots = 0;
    }
}

/// Where the end-to-end row of a latency summary comes from.
#[derive(Clone, Copy, Debug, PartialEq, Eq, Structural)]
pub enum TotalSource {
    /// End-to-end samples were recorded: their percentiles are used.
    Recorded,
    /// None were, but every stage has samples: the stage percentiles are
    /// added up, over as many samples as the sparsest stage holds.
    Summed { sample_count: u64 },
    /// Neither: the row stays empty.
    Missing,
}

/// The smaller of two counts.
pub open spec fn min_count(a: u64, b: u64) -> u64 {
    if a <= b {
        a
    } else {
        b
    }
}

/// The source of the end-to-end row, given how many end-to-end samples
/// were recorded and how many each of the four stages holds.
pub open spec fn spec_total_source(recorded: u64, c: Seq<u64>) -> TotalSource {
    if recorded > 0 {
        TotalSource::Recorded
    } else if c[0] > 0 && c[1] > 0 && c[2] > 0 && c[3] > 0 {
        TotalSource::Summed {
            sample_count: min_count(min_count(min_count(c[0], c[1]), c[2]), c[3]),
        }
    } else {
        TotalSource::Missing
    }
}

/// Chooses the source of the end-to-end latency row.
pub fn total_source(recorded_samples: u64, stage_counts: [u64; 4]) -> (r: TotalSource)
    ensures
        r == spec_total_source(recorded_samples, stage_counts@),
{
    if recorded_samples > 0 {
        return TotalSource::Recorded;
    }
    let c = stage_counts;
    if c[0] == 0 || c[1] == 0 || c[2] == 0 || c[3] == 0 {
        return TotalSource::Missing;
    }
    let mut m: u64 = c[0];
    if c[1] < m {
        m = c[1];
    }
    if c[2] < m {
        m = c[2];
    }
    if c[3] < m {
        m = c[3];
    }
    TotalSource::Summed { sample_count: m }
}

} // verus!
