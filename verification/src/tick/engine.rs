//! The decisions of the tick engine: the per-session sequence ledger, the
//! per-broker ingress channel, the watermark merge of several feeds, the
//! bounded diagnostic log and the freshness of broker health.

use crate::contracts::types::{
    BrokerId, ConnectionState, Diagnostic, FreshnessState, HealthState, HeartbeatState,
    IngressItem, MonoNs, ReceivedFrame, Sequence, SequenceDisposition, SessionId,
};
use std::collections::{HashSet, VecDeque};
use vstd::prelude::*;

verus! {

broadcast use vstd::std_specs::hash::group_hash_axioms;

// ---------------------------------------------------------------------
// Sequence ledger
// ---------------------------------------------------------------------

/// The abstract state of a sequence ledger: the session it follows, the
/// next sequence it expects, and the recent new sequences, oldest first,
/// at most `capacity` of them.
pub struct LedgerView {
    pub session_id: Option<SessionId>,
    pub expected: Sequence,
    pub recent: Seq<Sequence>,
    pub capacity: nat,
}

/// The last `cap` elements of `s`.
pub open spec fn keep_last(s: Seq<Sequence>, cap: nat) -> Seq<Sequence> {
    if s.len() > cap {
        s.skip(s.len() - cap)
    } else {
        s
    }
}

/// `s + 1`, saturating.
pub open spec fn succ(s: Sequence) -> Sequence {
    if s == u64::MAX {
        u64::MAX
    } else {
        (s + 1) as u64
    }
}

/// What observing the sequence `s` does to the ledger `v`: the ledger after,
/// the disposition, and the gap of unseen sequences it reveals.
pub open spec fn ledger_step(v: LedgerView, s: Sequence) -> (LedgerView, SequenceDisposition, Option<(Sequence, Sequence)>) {
    if v.recent.contains(s) {
        (v, SequenceDisposition::DuplicateExact, None)
    } else if s < v.expected {
        (v, SequenceDisposition::OutOfOrderUnverified, None)
    } else {
        (
            LedgerView { expected: succ(s), recent: keep_last(v.recent.push(s), v.capacity), ..v },
            SequenceDisposition::New,
            if s > v.expected {
                Some((v.expected, (s - 1) as u64))
            } else {
                None
            },
        )
    }
}

/// The ledger after a frame of session `sid` arrives: a new session starts
/// afresh from sequence 0.
pub open spec fn ledger_session(v: LedgerView, sid: SessionId) -> LedgerView {
    if v.session_id == Some(sid) {
        v
    } else {
        LedgerView { session_id: Some(sid), expected: 0, recent: Seq::empty(), ..v }
    }
}

/// Which source sequence numbers of one broker were already seen, within a
/// bounded window of recent new sequences.
pub struct SequenceLedger {
    expected_sequence: Sequence,
    session_id: Option<SessionId>,
    seen_sequences: HashSet<Sequence>,
    recent_sequences: VecDeque<Sequence>,
    capacity: usize,
}

impl View for SequenceLedger {
    type V = LedgerView;

    closed spec fn view(&self) -> LedgerView {
        LedgerView {
            session_id: self.session_id,
            expected: self.expected_sequence,
            recent: self.recent_sequences@,
            capacity: self.capacity as nat,
        }
    }
}

impl SequenceLedger {
    /// The set of seen sequences is exactly that of the recent ones, which
    /// are distinct and at most `capacity`.
    pub closed spec fn wf(&self) -> bool {
        &&& self.recent_sequences@.len() <= self.capacity
        &&& self.recent_sequences@.no_duplicates()
        &&& forall|s: Sequence| #[trigger]
            self.seen_sequences@.contains(s) <==> self.recent_sequences@.contains(s)
    }

    /// An empty ledger keeping up to `capacity` recent sequences.
    pub fn new(capacity: usize) -> (r: Self)
        ensures
            r.wf(),
            r@ == (LedgerView { session_id: None, expected: 0, recent: Seq::empty(), capacity: capacity as nat }),
    {
        SequenceLedger {
            expected_sequence: 0,
            session_id: None,
            seen_sequences: HashSet::new(),
            recent_sequences: VecDeque::new(),
            capacity,
        }
    }

    /// The session the ledger follows.
    pub fn session_id(&self) -> (r: Option<SessionId>)
        ensures
            r == self@.session_id,
    {
        self.session_id
    }

    /// The next sequence expected.
    pub fn expected_sequence(&self) -> (r: Sequence)
        ensures
            r == self@.expected,
    {
        self.expected_sequence
    }

    /// Follows the session `sid`, starting afresh if it is a new one.
    pub fn begin_session(&mut self, sid: SessionId)
        requires
            old(self).wf(),
        ensures
            final(self).wf(),
            final(self)@ == ledger_session(old(self)@, sid),
    {
        if self.session_id != Some(sid) {
            self.expected_sequence = 0;
            self.seen_sequences.clear();
            self.recent_sequences.clear();
            assert(self.recent_sequences@ =~= Seq::<Sequence>::empty());
        }
        self.session_id = Some(sid);
    }

    /// Classifies the sequence `s` and records it if new; reports the gap
    /// of sequences skipped before it.
    pub fn observe(&mut self, s: Sequence) -> (r: (SequenceDisposition, Option<(Sequence, Sequence)>))
        requires
            old(self).wf(),
        ensures
            final(self).wf(),
            (final(self)@, r.0, r.1) == ledger_step(old(self)@, s),
    {
        let ghost v = self@;
        if self.seen_sequences.contains(&s) {
            return (SequenceDisposition::DuplicateExact, None);
        }
        if s < self.expected_sequence {
            return (SequenceDisposition::OutOfOrderUnverified, None);
        }
        let gap = if s > self.expected_sequence {
            Some((self.expected_sequence, s - 1))
        } else {
            None
        };
        let ghost seen0 = self.seen_sequences@;
        self.seen_sequences.insert(s);
        self.recent_sequences.push_back(s);
        self.expected_sequence = s.saturating_add(1);
        let ghost before = self.recent_sequences@;
        let ghost seen1 = self.seen_sequences@;
        assert(seen1 == seen0.insert(s));
        assert(before == v.recent.push(s));
        assert(!v.recent.contains(s));
        assert(before.no_duplicates()) by {
            assert forall|i: int, j: int| 0 <= i < before.len() && 0 <= j < before.len() && i != j implies before[i] != before[j] by {
                if i == before.len() - 1 {
                    assert(v.recent[j] == before[j]);
                } else if j == before.len() - 1 {
                    assert(v.recent[i] == before[i]);
                }
            }
        }
        assert(forall|x: Sequence| #[trigger] seen1.contains(x) <==> before.contains(x)) by {
            assert forall|x: Sequence| #[trigger] seen1.contains(x) <==> before.contains(x) by {
                if before.contains(x) && x != s {
                    let k = choose|k: int| 0 <= k < before.len() && before[k] == x;
                    assert(v.recent[k] == x);
                }
                if v.recent.contains(x) {
                    let k = choose|k: int| 0 <= k < v.recent.len() && v.recent[k] == x;
                    assert(before[k] == x);
                }
                assert(before[before.len() - 1] == s);
            }
        }
        if self.recent_sequences.len() > self.capacity {
            match self.recent_sequences.pop_front() {
                Some(expired) => {
                    assert(expired == before[0]);
                    assert(self.recent_sequences@ =~= before.drop_first());
                    self.seen_sequences.remove(&expired);
                    let ghost seen2 = self.seen_sequences@;
                    assert(seen2 == seen1.remove(expired));
                    assert forall|x: Sequence| #[trigger]
                        seen2.contains(x) <==> before.drop_first().contains(x) by {
                        if before.drop_first().contains(x) {
                            let k = choose|k: int| 0 <= k < before.drop_first().len() && before.drop_first()[k] == x;
                            assert(before[k + 1] == x);
                            assert(x != expired);
                            assert(before.contains(x));
                        }
                        if x != expired && before.contains(x) {
                            let k = choose|k: int| 0 <= k < before.len() && before[k] == x;
                            assert(k != 0);
                            assert(before.drop_first()[k - 1] == x);
                        }
                    }
                    assert(before.drop_first() =~= keep_last(v.recent.push(s), v.capacity));
                },
                None => {},
            }
        } else {
            assert(self.recent_sequences@ =~= keep_last(v.recent.push(s), v.capacity));
        }
        (SequenceDisposition::New, gap)
    }
}

/// The sequence number of each tick of `ticks`.
pub open spec fn sequences_of(ticks: Seq<crate::contracts::types::TickRecord>) -> Seq<Sequence> {
    Seq::new(ticks.len(), |i: int| ticks[i].sequence)
}

/// Observing the sequences `seqs` one after another: the ledger after,
/// the disposition of each, and the gaps revealed, in order.
pub open spec fn ledger_run(v: LedgerView, seqs: Seq<Sequence>) -> (LedgerView, Seq<SequenceDisposition>, Seq<(Sequence, Sequence)>)
    decreases seqs.len(),
{
    if seqs.len() == 0 {
        (v, Seq::empty(), Seq::empty())
    } else {
        let prev = ledger_run(v, seqs.drop_last());
        let step = ledger_step(prev.0, seqs.last());
        (
            step.0,
            prev.1.push(step.1),
            match step.2 {
                Some(g) => prev.2.push(g),
                None => prev.2,
            },
        )
    }
}

impl SequenceLedger {
    /// Follows the session `sid` and observes the sequence numbers of a
    /// batch of ticks in order.
    pub fn observe_batch(&mut self, sid: SessionId, ticks: &[crate::contracts::types::TickRecord]) -> (r: (Vec<SequenceDisposition>, Vec<(Sequence, Sequence)>))
        requires
            old(self).wf(),
        ensures
            final(self).wf(),
            ({
                let run = ledger_run(ledger_session(old(self)@, sid), sequences_of(ticks@));
                &&& final(self)@ == run.0
                &&& r.0@ == run.1
                &&& r.1@ == run.2
            }),
    {
        self.begin_session(sid);
        let ghost v0 = self@;
        let ghost seqs = sequences_of(ticks@);
        let mut dispositions: Vec<SequenceDisposition> = Vec::new();
        let mut gaps: Vec<(Sequence, Sequence)> = Vec::new();
        let mut i: usize = 0;
        while i < ticks.len()
            invariant
                self.wf(),
                i <= ticks@.len(),
                seqs == sequences_of(ticks@),
                (self@, dispositions@, gaps@) == ledger_run(v0, seqs.take(i as int)),
            decreases ticks@.len() - i,
        {
            assert(seqs.take(i + 1).drop_last() =~= seqs.take(i as int));
            assert(seqs.take(i + 1).last() == ticks@[i as int].sequence);
            let (d, g) = self.observe(ticks[i].sequence);
            dispositions.push(d);
            match g {
                Some(x) => {
                    gaps.push(x);
                },
                None => {},
            }
            i = i + 1;
        }
        assert(seqs.take(i as int) =~= seqs);
        (dispositions, gaps)
    }
}

/// A sequence just recorded as new reads as a duplicate if it comes again
/// at once, provided the ledger keeps at least one sequence.
pub proof fn lemma_new_then_duplicate(v: LedgerView, s: Sequence)
    requires
        v.capacity >= 1,
        ledger_step(v, s).1 == SequenceDisposition::New,
    ensures
        ledger_step(ledger_step(v, s).0, s).1 == SequenceDisposition::DuplicateExact,
{
    let w = ledger_step(v, s).0;
    let pushed = v.recent.push(s);
    assert(pushed[pushed.len() - 1] == s);
    if pushed.len() > v.capacity {
        let k = pushed.len() - v.capacity;
        assert(w.recent[w.recent.len() - 1] == s);
    } else {
        assert(w.recent[w.recent.len() - 1] == s);
    }
}

/// Sequences observed in order one after another are all new and reveal
/// no gap; the ledger then expects the next one.
pub proof fn lemma_contiguous_is_new(v: LedgerView)
    requires
        !v.recent.contains(v.expected),
    ensures
        ledger_step(v, v.expected).1 == SequenceDisposition::New,
        ledger_step(v, v.expected).2 is None,
        ledger_step(v, v.expected).0.expected == succ(v.expected),
{
}

// ---------------------------------------------------------------------
// Ingress channel of one broker
// ---------------------------------------------------------------------

/// The abstract state of one broker's ingress channel.
pub struct ChannelView {
    pub connected: bool,
    pub generation: u64,
    pub watermark: MonoNs,
    pub pending: Seq<ReceivedFrame>,
    pub pending_bytes: usize,
    pub max_frames: usize,
    pub max_bytes: usize,
}

/// `a + b`, saturating at `usize::MAX`.
pub open spec fn sat_add(a: usize, b: nat) -> usize {
    if a + b > usize::MAX {
        usize::MAX
    } else {
        (a + b) as usize
    }
}

/// `a - b`, saturating at zero.
pub open spec fn sat_sub(a: usize, b: nat) -> usize {
    if a < b {
        0
    } else {
        (a - b) as usize
    }
}

/// What an ingress item does to the channel of its broker: the channel
/// after, and the reason of a connection that closed.
pub open spec fn channel_step(v: ChannelView, item: IngressItem) -> (ChannelView, Option<Seq<char>>) {
    match item {
        IngressItem::Connected { generation, .. } => (
            ChannelView { connected: true, generation, ..v },
            None,
        ),
        IngressItem::Progress { watermark_ns, .. } => (
            ChannelView {
                watermark: if watermark_ns.0 > v.watermark.0 {
                    watermark_ns
                } else {
                    v.watermark
                },
                ..v
            },
            None,
        ),
        IngressItem::Frame(rf) => (
            ChannelView {
                watermark: if rf.rx_mono_ns.0 > v.watermark.0 {
                    rf.rx_mono_ns
                } else {
                    v.watermark
                },
                pending: v.pending.push(rf),
                pending_bytes: sat_add(v.pending_bytes, rf.raw_wire_bytes@.len()),
                ..v
            },
            None,
        ),
        IngressItem::End { generation, reason, .. } => if v.generation == generation {
            (ChannelView { connected: false, ..v }, Some(reason@))
        } else {
            (v, None)
        },
    }
}

/// The channel holds more frames or bytes than its budget.
pub open spec fn channel_over_capacity(v: ChannelView) -> bool {
    v.pending.len() > v.max_frames || v.pending_bytes > v.max_bytes
}

/// The merge position of a pending frame: receive time, broker,
/// connection generation, frame index.
#[derive(Debug, Clone, Copy, PartialEq, Eq, Structural)]
pub struct MergeKey {
    pub rx_mono_ns: MonoNs,
    pub broker_id: BrokerId,
    pub connection_generation: u64,
    pub frame_index: u64,
}

/// The ingress queue and watermark of one broker.
pub struct BrokerChannel {
    is_connected: bool,
    generation: u64,
    watermark: MonoNs,
    pending_frames: VecDeque<ReceivedFrame>,
    pending_frame_bytes: usize,
    max_pending_frames: usize,
    max_pending_bytes: usize,
}

impl View for BrokerChannel {
    type V = ChannelView;

    closed spec fn view(&self) -> ChannelView {
        ChannelView {
            connected: self.is_connected,
            generation: self.generation,
            watermark: self.watermark,
            pending: self.pending_frames@,
            pending_bytes: self.pending_frame_bytes,
            max_frames: self.max_pending_frames,
            max_bytes: self.max_pending_bytes,
        }
    }
}

impl BrokerChannel {
    /// A disconnected channel with nothing pending and the given budgets.
    pub fn new(max_pending_frames: usize, max_pending_bytes: usize) -> (r: Self)
        ensures
            r@ == (ChannelView {
                connected: false,
                generation: 0,
                watermark: MonoNs(0),
                pending: Seq::empty(),
                pending_bytes: 0,
                max_frames: max_pending_frames,
                max_bytes: max_pending_bytes,
            }),
    {
        BrokerChannel {
            is_connected: false,
            generation: 0,
            watermark: MonoNs(0),
            pending_frames: VecDeque::new(),
            pending_frame_bytes: 0,
            max_pending_frames,
            max_pending_bytes,
        }
    }

    pub fn is_connected(&self) -> (r: bool)
        ensures
            r == self@.connected,
    {
        self.is_connected
    }

    pub fn watermark(&self) -> (r: MonoNs)
        ensures
            r == self@.watermark,
    {
        self.watermark
    }

    pub fn pending_len(&self) -> (r: usize)
        ensures
            r == self@.pending.len(),
    {
        self.pending_frames.len()
    }

    /// Applies an ingress item of this channel's broker; returns the reason
    /// of a connection that closed.
    pub fn apply_ingress(&mut self, item: IngressItem) -> (r: Option<String>)
        ensures
            final(self)@ == channel_step(old(self)@, item).0,
            (match channel_step(old(self)@, item).1 {
                Some(m) => r matches Some(x) && x@ == m,
                None => r is None,
            }),
    {
        match item {
            IngressItem::Connected { generation, .. } => {
                self.is_connected = true;
                self.generation = generation;
                None
            },
            IngressItem::Progress { watermark_ns, .. } => {
                if watermark_ns.0 > self.watermark.0 {
                    self.watermark = watermark_ns;
                }
                None
            },
            IngressItem::Frame(rf) => {
                if rf.rx_mono_ns.0 > self.watermark.0 {
                    self.watermark = rf.rx_mono_ns;
                }
                let wire: &Vec<u8> = &*rf.raw_wire_bytes;
                self.pending_frame_bytes = self.pending_frame_bytes.saturating_add(wire.len());
                self.pending_frames.push_back(rf);
                None
            },
            IngressItem::End { generation, reason, .. } => {
                if self.generation == generation {
                    self.is_connected = false;
                    Some(reason)
                } else {
                    None
                }
            },
        }
    }

    /// The channel holds more than its budget of frames or bytes.
    pub fn over_capacity(&self) -> (r: bool)
        ensures
            r == channel_over_capacity(self@),
    {
        self.pending_frames.len() > self.max_pending_frames
            || self.pending_frame_bytes > self.max_pending_bytes
    }

    /// The merge key of the oldest pending frame of broker `broker_id`.
    pub fn front_key(&self, broker_id: BrokerId) -> (r: Option<MergeKey>)
        ensures
            self@.pending.len() == 0 ==> r is None,
            self@.pending.len() > 0 ==> r == Some(
                MergeKey {
                    rx_mono_ns: self@.pending[0].rx_mono_ns,
                    broker_id,
                    connection_generation: self@.pending[0].connection_generation,
                    frame_index: self@.pending[0].frame_index,
                },
            ),
    {
        if self.pending_frames.len() == 0 {
            None
        } else {
            let f = &self.pending_frames[0];
            Some(
                MergeKey {
                    rx_mono_ns: f.rx_mono_ns,
                    broker_id,
                    connection_generation: f.connection_generation,
                    frame_index: f.frame_index,
                },
            )
        }
    }

    /// The oldest pending frame, if any.
    pub fn front_frame(&self) -> (r: Option<&ReceivedFrame>)
        ensures
            self@.pending.len() == 0 ==> r is None,
            self@.pending.len() > 0 ==> r == Some(&self@.pending[0]),
    {
        if self.pending_frames.len() == 0 {
            None
        } else {
            Some(&self.pending_frames[0])
        }
    }

    /// Takes the oldest pending frame.
    pub fn pop_frame(&mut self) -> (r: Option<ReceivedFrame>)
        ensures
            old(self)@.pending.len() == 0 ==> r is None && final(self)@ == old(self)@,
            old(self)@.pending.len() > 0 ==> r == Some(old(self)@.pending[0]) && final(self)@ == (
            ChannelView {
                pending: old(self)@.pending.drop_first(),
                pending_bytes: sat_sub(
                    old(self)@.pending_bytes,
                    old(self)@.pending[0].raw_wire_bytes@.len(),
                ),
                ..old(self)@
            }),
    {
        match self.pending_frames.pop_front() {
            Some(frame) => {
                let wire: &Vec<u8> = &*frame.raw_wire_bytes;
                self.pending_frame_bytes = self.pending_frame_bytes.saturating_sub(wire.len());
                Some(frame)
            },
            None => None,
        }
    }
}

// ---------------------------------------------------------------------
// Watermark merge
// ---------------------------------------------------------------------

/// The least watermark among connected channels (`u64::MAX` when none).
pub open spec fn min_connected_watermark(s: Seq<(bool, MonoNs)>) -> u64
    decreases s.len(),
{
    if s.len() == 0 {
        u64::MAX
    } else {
        let rest = min_connected_watermark(s.drop_last());
        if s.last().0 && s.last().1.0 < rest {
            s.last().1.0
        } else {
            rest
        }
    }
}

/// The greatest watermark among all channels (zero when none).
pub open spec fn max_watermark(s: Seq<(bool, MonoNs)>) -> u64
    decreases s.len(),
{
    if s.len() == 0 {
        0
    } else {
        let rest = max_watermark(s.drop_last());
        if s.last().1.0 > rest {
            s.last().1.0
        } else {
            rest
        }
    }
}

/// Up to which receive time frames of all feeds may be merged: the least
/// watermark of the connected feeds, or, with none connected, the greatest
/// watermark of any.
pub open spec fn global_watermark(s: Seq<(bool, MonoNs)>) -> u64 {
    if exists|i: int| 0 <= i < s.len() && #[trigger] s[i].0 {
        min_connected_watermark(s)
    } else {
        max_watermark(s)
    }
}

/// The merge watermark of the channels, given as (connected, watermark).
pub fn calculate_global_watermark(channels: &[(bool, MonoNs)]) -> (r: MonoNs)
    ensures
        r.0 == global_watermark(channels@),
{
    let mut min_wm: u64 = u64::MAX;
    let mut max_wm: u64 = 0;
    let mut any_connected = false;
    let mut i: usize = 0;
    while i < channels.len()
        invariant
            i <= channels@.len(),
            min_wm == min_connected_watermark(channels@.take(i as int)),
            max_wm == max_watermark(channels@.take(i as int)),
            any_connected <==> exists|k: int| 0 <= k < i && #[trigger] channels@[k].0,
        decreases channels@.len() - i,
    {
        let (connected, wm) = channels[i];
        assert(channels@.take(i + 1).drop_last() =~= channels@.take(i as int));
        if connected {
            any_connected = true;
            if wm.0 < min_wm {
                min_wm = wm.0;
            }
        }
        if wm.0 > max_wm {
            max_wm = wm.0;
        }
        i = i + 1;
    }
    assert(channels@.take(i as int) =~= channels@);
    if any_connected {
        MonoNs(min_wm)
    } else {
        MonoNs(max_wm)
    }
}

/// `a` comes before `b` in merge order.
pub open spec fn key_less(a: MergeKey, b: MergeKey) -> bool {
    a.rx_mono_ns.0 < b.rx_mono_ns.0 || (a.rx_mono_ns.0 == b.rx_mono_ns.0 && (a.broker_id
        < b.broker_id || (a.broker_id == b.broker_id && (a.connection_generation
        < b.connection_generation || (a.connection_generation == b.connection_generation
        && a.frame_index < b.frame_index)))))
}

fn key_less_exec(a: &MergeKey, b: &MergeKey) -> (r: bool)
    ensures
        r == key_less(*a, *b),
{
    a.rx_mono_ns.0 < b.rx_mono_ns.0 || (a.rx_mono_ns.0 == b.rx_mono_ns.0 && (a.broker_id
        < b.broker_id || (a.broker_id == b.broker_id && (a.connection_generation
        < b.connection_generation || (a.connection_generation == b.connection_generation
        && a.frame_index < b.frame_index)))))
}

/// The bound every candidate key must stay under.
pub open spec fn key_bound() -> MergeKey {
    MergeKey { rx_mono_ns: MonoNs(u64::MAX), broker_id: 0, connection_generation: 0, frame_index: 0 }
}

/// A front frame may be merged now: received by the watermark and under
/// the key bound.
pub open spec fn mergeable(k: MergeKey, wm: MonoNs) -> bool {
    k.rx_mono_ns.0 <= wm.0 && key_less(k, key_bound())
}

/// Chooses the next frame to merge among the fronts of the channels: the
/// one first in merge order among those received by the watermark.
pub fn select_next_frame(fronts: &[MergeKey], watermark: MonoNs) -> (r: Option<usize>)
    ensures
        r is None <==> (forall|j: int| 0 <= j < fronts@.len() ==> !mergeable(#[trigger] fronts@[j], watermark)),
        r matches Some(i) ==> i < fronts@.len() && mergeable(fronts@[i as int], watermark)
            && (forall|j: int| 0 <= j < fronts@.len() && mergeable(#[trigger] fronts@[j], watermark) ==> !key_less(fronts@[j], fronts@[i as int]))
            && (forall|j: int| 0 <= j < i && mergeable(#[trigger] fronts@[j], watermark) ==> key_less(fronts@[i as int], fronts@[j])),
{
    let mut best: Option<usize> = None;
    let mut best_key = MergeKey { rx_mono_ns: MonoNs(u64::MAX), broker_id: 0, connection_generation: 0, frame_index: 0 };
    let mut i: usize = 0;
    while i < fronts.len()
        invariant
            i <= fronts@.len(),
            best is None ==> best_key == key_bound() && (forall|j: int| 0 <= j < i ==> !mergeable(#[trigger] fronts@[j], watermark)),
            best matches Some(b) ==> b < i && best_key == fronts@[b as int] && mergeable(best_key, watermark)
                && (forall|j: int| 0 <= j < i && mergeable(#[trigger] fronts@[j], watermark) ==> !key_less(fronts@[j], best_key))
                && (forall|j: int| 0 <= j < b && mergeable(#[trigger] fronts@[j], watermark) ==> key_less(best_key, fronts@[j])),
        decreases fronts@.len() - i,
    {
        let k = fronts[i];
        if k.rx_mono_ns.0 <= watermark.0 && key_less_exec(&k, &best_key) {
            best_key = k;
            best = Some(i);
        }
        i = i + 1;
    }
    best
}

// ---------------------------------------------------------------------
// Diagnostics and health
// ---------------------------------------------------------------------

/// The number of diagnostics the engine keeps.
pub const MAX_DIAGNOSTICS: usize = 2048;

/// The most recent diagnostics, oldest first, at most `MAX_DIAGNOSTICS`.
pub struct DiagnosticLog {
    entries: VecDeque<Diagnostic>,
}

/// The last `MAX_DIAGNOSTICS` of `s`.
pub open spec fn keep_recent_diagnostics(s: Seq<Diagnostic>) -> Seq<Diagnostic> {
    if s.len() > MAX_DIAGNOSTICS {
        s.skip(s.len() - MAX_DIAGNOSTICS)
    } else {
        s
    }
}

impl View for DiagnosticLog {
    type V = Seq<Diagnostic>;

    closed spec fn view(&self) -> Seq<Diagnostic> {
        self.entries@
    }
}

impl DiagnosticLog {
    pub fn new() -> (r: Self)
        ensures
            r@ == Seq::<Diagnostic>::empty(),
    {
        DiagnosticLog { entries: VecDeque::new() }
    }

    /// Appends a diagnostic, dropping the oldest when full.
    pub fn push(&mut self, d: Diagnostic)
        requires
            old(self)@.len() <= MAX_DIAGNOSTICS,
        ensures
            final(self)@ == keep_recent_diagnostics(old(self)@.push(d)),
            final(self)@.len() <= MAX_DIAGNOSTICS,
    {
        let ghost s = self.entries@.push(d);
        if self.entries.len() == MAX_DIAGNOSTICS {
            self.entries.pop_front();
        }
        self.entries.push_back(d);
        assert(self.entries@ =~= keep_recent_diagnostics(s));
    }

    pub fn len(&self) -> (r: usize)
        ensures
            r == self@.len(),
    {
        self.entries.len()
    }

    /// The diagnostics kept, oldest first.
    pub fn to_vec(&self) -> (r: Vec<Diagnostic>)
        ensures
            r@ == self@,
    {
        let mut out: Vec<Diagnostic> = Vec::new();
        let mut i: usize = 0;
        while i < self.entries.len()
            invariant
                i <= self.entries@.len(),
                out@ == self.entries@.take(i as int),
            decreases self.entries@.len() - i,
        {
            out.push(copy_diagnostic(&self.entries[i]));
            proof {
                assert(out@ =~= self.entries@.take(i as int + 1));
            }
            i = i + 1;
        }
        proof {
            assert(self.entries@.take(self.entries@.len() as int) =~= self.entries@);
        }
        out
    }
}

/// A copy of `d`, field by field.
pub fn copy_diagnostic(d: &Diagnostic) -> (r: Diagnostic)
    ensures
        r == *d,
{
    Diagnostic {
        code: d.code.clone(),
        severity: d.severity,
        broker_id: d.broker_id,
        session_id: d.session_id,
        mono_ns: d.mono_ns,
        sequence_range: d.sequence_range,
        known_count: d.known_count,
        detail_value: d.detail_value,
        message: d.message.clone(),
    }
}

/// Whether the engine switches its active pair to `pair`: two distinct
/// brokers, both configured, other than the active pair.
pub fn pair_switch_allowed(pair: (BrokerId, BrokerId), active: (BrokerId, BrokerId), broker_ids: &[BrokerId]) -> (r: bool)
    ensures
        r == (pair.0 != pair.1 && pair != active && broker_ids@.contains(pair.0) && broker_ids@.contains(pair.1)),
{
    if pair.0 == pair.1 || (pair.0 == active.0 && pair.1 == active.1) {
        return false;
    }
    let mut has_a = false;
    let mut has_b = false;
    let mut i: usize = 0;
    while i < broker_ids.len()
        invariant
            i <= broker_ids@.len(),
            has_a <==> exists|k: int| 0 <= k < i && broker_ids@[k] == pair.0,
            has_b <==> exists|k: int| 0 <= k < i && broker_ids@[k] == pair.1,
        decreases broker_ids@.len() - i,
    {
        if broker_ids[i] == pair.0 {
            has_a = true;
        }
        if broker_ids[i] == pair.1 {
            has_b = true;
        }
        i = i + 1;
    }
    has_a && has_b
}

/// `a - b` on monotonic readings, saturating at zero.
pub open spec fn mono_elapsed(now: MonoNs, then: MonoNs) -> int {
    if now.0 >= then.0 {
        now.0 - then.0
    } else {
        0
    }
}

/// `ms` milliseconds in nanoseconds, saturating.
pub open spec fn ms_to_ns(ms: u64) -> int {
    if ms * 1_000_000 > u64::MAX {
        u64::MAX as int
    } else {
        ms * 1_000_000
    }
}

/// Freshness of a feed whose last live tick arrived at `last`.
pub open spec fn freshness_at(last: Option<MonoNs>, now: MonoNs, stale_after_ms: u64) -> FreshnessState {
    match last {
        Some(t) => if mono_elapsed(now, t) <= ms_to_ns(stale_after_ms) {
            FreshnessState::Live
        } else {
            FreshnessState::Stale
        },
        None => FreshnessState::Unknown,
    }
}

/// Heartbeat state of a feed whose last heartbeat arrived at `last`.
pub open spec fn heartbeat_at(last: Option<MonoNs>, now: MonoNs, timeout_ms: u64) -> HeartbeatState {
    match last {
        Some(t) => if mono_elapsed(now, t) <= ms_to_ns(timeout_ms) {
            HeartbeatState::Healthy
        } else {
            HeartbeatState::Timeout
        },
        None => HeartbeatState::Unknown,
    }
}

fn within(now: MonoNs, then: MonoNs, ms: u64) -> (r: bool)
    ensures
        r == (mono_elapsed(now, then) <= ms_to_ns(ms)),
{
    let limit = match ms.checked_mul(1_000_000) {
        Some(v) => v,
        None => u64::MAX,
    };
    now.0.saturating_sub(then.0) <= limit
}

/// The health of a feed as of `now`: for a connected feed, its freshness
/// and heartbeat state are judged from the last live tick and heartbeat;
/// otherwise it is as recorded.
pub fn health_at(h: &HealthState, now: MonoNs, stale_after_ms: u64, heartbeat_timeout_ms: u64) -> (r: HealthState)
    ensures
        r == (if h.connection == ConnectionState::Connected {
            HealthState {
                data_freshness: freshness_at(h.last_live_tick_rx_mono, now, stale_after_ms),
                heartbeat: heartbeat_at(h.last_heartbeat_rx_mono, now, heartbeat_timeout_ms),
                ..*h
            }
        } else {
            *h
        }),
{
    if h.connection == ConnectionState::Connected {
        let data_freshness = match h.last_live_tick_rx_mono {
            Some(last) => if within(now, last, stale_after_ms) {
                FreshnessState::Live
            } else {
                FreshnessState::Stale
            },
            None => FreshnessState::Unknown,
        };
        let heartbeat = match h.last_heartbeat_rx_mono {
            Some(last) => if within(now, last, heartbeat_timeout_ms) {
                HeartbeatState::Healthy
            } else {
                HeartbeatState::Timeout
            },
            None => HeartbeatState::Unknown,
        };
        HealthState { data_freshness, heartbeat, ..*h }
    } else {
        HealthState { ..*h }
    }
}

} // verus!
