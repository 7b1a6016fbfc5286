//! One-to-one pairing of the moves of two brokers, for lead/lag.

use crate::contracts::models::{LeadLagMatch, MoveEvent};
use crate::contracts::types::{AnalysisSegmentId, BrokerId, MonoNs};
use crate::metrics::burst::{drop_before, sat_sub_u64};
use std::collections::VecDeque;
use vstd::prelude::*;

verus! {

/// `|a - b|`.
pub open spec fn abs_diff(a: u64, b: u64) -> u64 {
    if a >= b {
        (a - b) as u64
    } else {
        (b - a) as u64
    }
}

/// Whether the waiting move `c` may pair with the incoming move `inc`:
/// same direction, received at another instant, within `window_ns` of it.
pub open spec fn can_pair(c: MoveEvent, inc: MoveEvent, window_ns: u64) -> bool {
    &&& c.direction == inc.direction
    &&& c.rx_mono_ns.0 != inc.rx_mono_ns.0
    &&& abs_diff(c.rx_mono_ns.0, inc.rx_mono_ns.0) <= window_ns
}

/// Whether `c` pairs with `inc` better than `d` does: closer in time, or as
/// close and with a lower trigger sequence.
pub open spec fn pairs_better(c: MoveEvent, d: MoveEvent, inc: MoveEvent) -> bool {
    let dc = abs_diff(c.rx_mono_ns.0, inc.rx_mono_ns.0);
    let dd = abs_diff(d.rx_mono_ns.0, inc.rx_mono_ns.0);
    dc < dd || (dc == dd && c.trigger_sequence < d.trigger_sequence)
}

/// Whether `cands[i]` is the partner of `inc`: it may pair, it pairs better
/// than every earlier candidate that may, and no later one pairs better.
pub open spec fn is_best_match(cands: Seq<MoveEvent>, inc: MoveEvent, window_ns: u64, i: int) -> bool {
    &&& 0 <= i < cands.len()
    &&& can_pair(cands[i], inc, window_ns)
    &&& forall|j: int| 0 <= j < i && can_pair(#[trigger] cands[j], inc, window_ns) ==> pairs_better(cands[i], cands[j], inc)
    &&& forall|j: int| i < j < cands.len() && can_pair(#[trigger] cands[j], inc, window_ns) ==> !pairs_better(cands[j], cands[i], inc)
}

/// Whether some waiting move may pair with `inc`.
pub open spec fn has_partner(cands: Seq<MoveEvent>, inc: MoveEvent, window_ns: u64) -> bool {
    exists|j: int| 0 <= j < cands.len() && can_pair(#[trigger] cands[j], inc, window_ns)
}

/// The partner of `inc`, where it has one.
pub open spec fn best_match(cands: Seq<MoveEvent>, inc: MoveEvent, window_ns: u64) -> int {
    choose|i: int| is_best_match(cands, inc, window_ns, i)
}

/// There is at most one partner.
pub proof fn lemma_best_match_unique(cands: Seq<MoveEvent>, inc: MoveEvent, window_ns: u64, i: int, k: int)
    requires
        is_best_match(cands, inc, window_ns, i),
        is_best_match(cands, inc, window_ns, k),
    ensures
        i == k,
{
    if i < k {
        assert(can_pair(cands[i], inc, window_ns));
    } else if k < i {
        assert(can_pair(cands[k], inc, window_ns));
    }
}

/// The abstract state of a matcher.
pub struct MatcherView {
    pub broker_a: BrokerId,
    pub broker_b: BrokerId,
    pub window_ns: u64,
    pub pending_a: Seq<MoveEvent>,
    pub pending_b: Seq<MoveEvent>,
    pub match_count: u64,
    pub capacity: usize,
    pub segment_id: AnalysisSegmentId,
}

/// `q` with `e` appended, after dropping its oldest move where it already
/// holds `cap` moves or more.
pub open spec fn push_bounded(q: Seq<MoveEvent>, e: MoveEvent, cap: usize) -> Seq<MoveEvent> {
    if q.len() >= cap && q.len() > 0 {
        q.drop_first().push(e)
    } else {
        q.push(e)
    }
}

/// The pairing of A's move `ea` with B's move `eb`, numbered after the
/// matches made so far. The broker that received its move first leads;
/// at equal instants B leads.
pub open spec fn match_of(v: MatcherView, ea: MoveEvent, eb: MoveEvent) -> LeadLagMatch {
    let signed = eb.rx_mono_ns.0 - ea.rx_mono_ns.0;
    let leader = if signed > 0 { v.broker_a } else { v.broker_b };
    let follower = if signed > 0 { v.broker_b } else { v.broker_a };
    LeadLagMatch {
        match_id: (v.match_count + 1) as u64,
        leader,
        follower,
        leader_event: if leader == v.broker_a { ea } else { eb },
        follower_event: if follower == v.broker_a { ea } else { eb },
        t_leader: if leader == v.broker_a { ea.rx_mono_ns } else { eb.rx_mono_ns },
        t_follower: if follower == v.broker_a { ea.rx_mono_ns } else { eb.rx_mono_ns },
        signed_delta_ns: signed as i64,
        abs_delta_ns: abs_diff(ea.rx_mono_ns.0, eb.rx_mono_ns.0),
        segment_id: v.segment_id,
    }
}

/// In a match of two distinct brokers the leader's move came no later
/// than the follower's, the absolute delta is the gap between them, and
/// the signed delta is B's time less A's.
pub proof fn lemma_match_leader_first(v: MatcherView, ea: MoveEvent, eb: MoveEvent)
    requires
        v.broker_a != v.broker_b,
    ensures
        match_of(v, ea, eb).t_leader.0 <= match_of(v, ea, eb).t_follower.0,
        match_of(v, ea, eb).abs_delta_ns == match_of(v, ea, eb).t_follower.0 - match_of(v, ea, eb).t_leader.0,
        match_of(v, ea, eb).leader != match_of(v, ea, eb).follower,
        ea.rx_mono_ns.0 <= i64::MAX && eb.rx_mono_ns.0 <= i64::MAX ==> match_of(v, ea, eb).signed_delta_ns == eb.rx_mono_ns.0 - ea.rx_mono_ns.0,
{
}

/// What a move `e` does to the matcher `v`, and the match it makes. A move
/// of another segment or broker is ignored. A move of A pairs with its
/// partner among B's waiting moves, which leaves the queue; with none, it
/// waits itself, and symmetrically for B.
pub open spec fn matcher_step(v: MatcherView, e: MoveEvent) -> (MatcherView, Option<LeadLagMatch>) {
    if e.segment_id != v.segment_id {
        (v, None)
    } else if e.broker_id == v.broker_a {
        if has_partner(v.pending_b, e, v.window_ns) {
            let i = best_match(v.pending_b, e, v.window_ns);
            (
                MatcherView { pending_b: v.pending_b.remove(i), match_count: (v.match_count + 1) as u64, ..v },
                Some(match_of(v, e, v.pending_b[i])),
            )
        } else {
            (MatcherView { pending_a: push_bounded(v.pending_a, e, v.capacity), ..v }, None)
        }
    } else if e.broker_id == v.broker_b {
        if has_partner(v.pending_a, e, v.window_ns) {
            let i = best_match(v.pending_a, e, v.window_ns);
            (
                MatcherView { pending_a: v.pending_a.remove(i), match_count: (v.match_count + 1) as u64, ..v },
                Some(match_of(v, v.pending_a[i], e)),
            )
        } else {
            (MatcherView { pending_b: push_bounded(v.pending_b, e, v.capacity), ..v }, None)
        }
    } else {
        (v, None)
    }
}

/// `pairs_better` is a strict total order on the moves' distances and
/// trigger sequences.
proof fn lemma_pairs_better_order(a: MoveEvent, b: MoveEvent, c: MoveEvent, inc: MoveEvent)
    ensures
        pairs_better(a, b, inc) && pairs_better(b, c, inc) ==> pairs_better(a, c, inc),
        pairs_better(a, b, inc) && !pairs_better(c, b, inc) ==> pairs_better(a, c, inc),
{
}

/// Where some waiting move may pair with `inc`, one of them is its partner.
pub proof fn lemma_best_match_exists(cands: Seq<MoveEvent>, inc: MoveEvent, window_ns: u64)
    requires
        has_partner(cands, inc, window_ns),
    ensures
        is_best_match(cands, inc, window_ns, best_match(cands, inc, window_ns)),
    decreases cands.len(),
{
    let n = cands.len() - 1;
    let p = cands.drop_last();
    let last = cands[n];
    assert forall|j: int| 0 <= j < n implies #[trigger] p[j] == cands[j] by {}
    let w = choose|j: int| 0 <= j < cands.len() && can_pair(#[trigger] cands[j], inc, window_ns);
    let mut best: int = n;
    if has_partner(p, inc, window_ns) {
        lemma_best_match_exists(p, inc, window_ns);
        let i = best_match(p, inc, window_ns);
        assert(p[i] == cands[i]);
        if can_pair(last, inc, window_ns) && pairs_better(last, cands[i], inc) {
            assert forall|j: int| 0 <= j < n && can_pair(#[trigger] cands[j], inc, window_ns) implies pairs_better(cands[n], cands[j], inc) by {
                assert(p[j] == cands[j]);
                lemma_pairs_better_order(cands[n], cands[i], cands[j], inc);
            }
            assert(is_best_match(cands, inc, window_ns, n));
        } else {
            assert forall|j: int| 0 <= j < i && can_pair(#[trigger] cands[j], inc, window_ns) implies pairs_better(cands[i], cands[j], inc) by {
                assert(p[j] == cands[j]);
            }
            assert forall|j: int| i < j < cands.len() && can_pair(#[trigger] cands[j], inc, window_ns) implies !pairs_better(cands[j], cands[i], inc) by {
                if j < n {
                    assert(p[j] == cands[j]);
                }
            }
            best = i;
            assert(is_best_match(cands, inc, window_ns, i));
        }
    } else {
        if w < n {
            assert(p[w] == cands[w]);
        }
        assert forall|j: int| 0 <= j < n implies !can_pair(#[trigger] cands[j], inc, window_ns) by {
            assert(p[j] == cands[j]);
        }
        assert(is_best_match(cands, inc, window_ns, n));
    }
    assert(is_best_match(cands, inc, window_ns, best));
}

/// A match pairs two moves in the direction of the incoming move, received
/// at different instants no more than the window apart, one of them the
/// incoming move; and a move meets no match where no waiting move of the
/// other broker goes its way.
pub proof fn lemma_match_same_direction(v: MatcherView, e: MoveEvent)
    ensures
        matcher_step(v, e).1 matches Some(m) ==> {
            &&& m.leader_event.direction == e.direction
            &&& m.follower_event.direction == e.direction
            &&& (m.leader_event == e || m.follower_event == e)
            &&& m.abs_delta_ns <= v.window_ns
            &&& v.broker_a != v.broker_b ==> m.t_leader.0 != m.t_follower.0
        },
        e.broker_id == v.broker_a && (forall|j: int|
            0 <= j < v.pending_b.len() ==> (#[trigger] v.pending_b[j]).direction != e.direction)
            ==> matcher_step(v, e).1 is None,
        e.broker_id == v.broker_b && e.broker_id != v.broker_a && (forall|j: int|
            0 <= j < v.pending_a.len() ==> (#[trigger] v.pending_a[j]).direction != e.direction)
            ==> matcher_step(v, e).1 is None,
{
    if e.segment_id == v.segment_id {
        if e.broker_id == v.broker_a {
            if has_partner(v.pending_b, e, v.window_ns) {
                lemma_best_match_exists(v.pending_b, e, v.window_ns);
            }
        } else if e.broker_id == v.broker_b {
            if has_partner(v.pending_a, e, v.window_ns) {
                lemma_best_match_exists(v.pending_a, e, v.window_ns);
            }
        }
    }
}

/// A move of A that meets a match pairs with the closest waiting move of B
/// among those it may pair with (on equal distance, the lower trigger
/// sequence), which leaves B's queue; A's queue is unchanged and the match
/// is numbered after the matches made so far. A move of A that meets none
/// waits at the end of A's queue, B's queue unchanged.
pub proof fn lemma_match_closest_from_a(v: MatcherView, e: MoveEvent)
    requires
        e.segment_id == v.segment_id,
        e.broker_id == v.broker_a,
    ensures
        matcher_step(v, e).1 matches Some(m) ==> {
            let w = matcher_step(v, e).0;
            &&& m.match_id == v.match_count + 1 || v.match_count == u64::MAX
            &&& w.match_count == m.match_id
            &&& w.pending_a == v.pending_a
            &&& w.pending_b.len() == v.pending_b.len() - 1
            &&& exists|i: int|
                0 <= i < v.pending_b.len() && w.pending_b == v.pending_b.remove(i) && (v.broker_a
                    != v.broker_b ==> m.leader_event == v.pending_b[i] || m.follower_event
                    == v.pending_b[i]) && forall|j: int|
                    0 <= j < v.pending_b.len() && (#[trigger] v.pending_b[j]).direction
                        == e.direction && v.pending_b[j].rx_mono_ns.0 != e.rx_mono_ns.0
                        && abs_diff(v.pending_b[j].rx_mono_ns.0, e.rx_mono_ns.0) <= v.window_ns
                        ==> m.abs_delta_ns < abs_diff(v.pending_b[j].rx_mono_ns.0, e.rx_mono_ns.0)
                        || (m.abs_delta_ns == abs_diff(v.pending_b[j].rx_mono_ns.0, e.rx_mono_ns.0)
                        && v.pending_b[i].trigger_sequence <= v.pending_b[j].trigger_sequence)
        },
        matcher_step(v, e).1 is None ==> {
            let w = matcher_step(v, e).0;
            &&& w.pending_b == v.pending_b
            &&& w.pending_a.last() == e
            &&& w.match_count == v.match_count
        },
{
    if has_partner(v.pending_b, e, v.window_ns) {
        lemma_best_match_exists(v.pending_b, e, v.window_ns);
        let i = best_match(v.pending_b, e, v.window_ns);
        let m = matcher_step(v, e).1.unwrap();
        assert(m.abs_delta_ns == abs_diff(v.pending_b[i].rx_mono_ns.0, e.rx_mono_ns.0));
        assert forall|j: int|
            0 <= j < v.pending_b.len() && (#[trigger] v.pending_b[j]).direction == e.direction
                && v.pending_b[j].rx_mono_ns.0 != e.rx_mono_ns.0 && abs_diff(
                v.pending_b[j].rx_mono_ns.0,
                e.rx_mono_ns.0,
            ) <= v.window_ns implies m.abs_delta_ns < abs_diff(v.pending_b[j].rx_mono_ns.0, e.rx_mono_ns.0)
            || (m.abs_delta_ns == abs_diff(v.pending_b[j].rx_mono_ns.0, e.rx_mono_ns.0)
            && v.pending_b[i].trigger_sequence <= v.pending_b[j].trigger_sequence) by {
            assert(can_pair(v.pending_b[j], e, v.window_ns));
            if j < i {
                assert(pairs_better(v.pending_b[i], v.pending_b[j], e));
            } else if j > i {
                assert(!pairs_better(v.pending_b[j], v.pending_b[i], e));
            }
        }
        let w = matcher_step(v, e).0;
        assert(w.pending_b == v.pending_b.remove(i));
        assert(v.broker_a != v.broker_b ==> m.leader_event == v.pending_b[i] || m.follower_event
            == v.pending_b[i]);
    }
}

/// Pairs each move of broker A with at most one move of broker B in the
/// same direction, the closest in time within the window.
pub struct OneToOneEventMatcher {
    broker_a: BrokerId,
    broker_b: BrokerId,
    window_ns: u64,
    pending_a: VecDeque<MoveEvent>,
    pending_b: VecDeque<MoveEvent>,
    match_count: u64,
    capacity: usize,
    segment_id: AnalysisSegmentId,
}

impl View for OneToOneEventMatcher {
    type V = MatcherView;

    closed spec fn view(&self) -> MatcherView {
        MatcherView {
            broker_a: self.broker_a,
            broker_b: self.broker_b,
            window_ns: self.window_ns,
            pending_a: self.pending_a@,
            pending_b: self.pending_b@,
            match_count: self.match_count,
            capacity: self.capacity,
            segment_id: self.segment_id,
        }
    }
}

/// Every waiting move was received at an instant that fits an `i64`.
pub open spec fn times_fit(v: MatcherView) -> bool {
    &&& forall|j: int| 0 <= j < v.pending_a.len() ==> (#[trigger] v.pending_a[j]).rx_mono_ns.0 <= i64::MAX
    &&& forall|j: int| 0 <= j < v.pending_b.len() ==> (#[trigger] v.pending_b[j]).rx_mono_ns.0 <= i64::MAX
}

/// The index of the partner of `incoming` among `candidates`, if any.
fn find_best_match(incoming: &MoveEvent, candidates: &VecDeque<MoveEvent>, window_ns: u64) -> (r: Option<usize>)
    requires
        incoming.rx_mono_ns.0 <= i64::MAX,
        forall|j: int| 0 <= j < candidates@.len() ==> (#[trigger] candidates@[j]).rx_mono_ns.0 <= i64::MAX,
    ensures
        r is None <==> !has_partner(candidates@, *incoming, window_ns),
        r is Some ==> is_best_match(candidates@, *incoming, window_ns, r->0 as int),
{
    let mut best_idx: Option<usize> = None;
    let mut min_diff: u64 = u64::MAX;
    let mut i: usize = 0;
    let ghost c = candidates@;
    while i < candidates.len()
        invariant
            c == candidates@,
            i <= c.len(),
            incoming.rx_mono_ns.0 <= i64::MAX,
            forall|j: int| 0 <= j < c.len() ==> (#[trigger] c[j]).rx_mono_ns.0 <= i64::MAX,
            best_idx is None ==> min_diff == u64::MAX,
            best_idx is None ==> forall|j: int| 0 <= j < i ==> !can_pair(#[trigger] c[j], *incoming, window_ns),
            best_idx is Some ==> is_best_match(c.take(i as int), *incoming, window_ns, best_idx->0 as int),
            best_idx is Some ==> min_diff == abs_diff(c[best_idx->0 as int].rx_mono_ns.0, incoming.rx_mono_ns.0),
            best_idx is Some ==> best_idx->0 < i,
        decreases c.len() - i,
    {
        let cand = candidates[i];
        let t_inc = incoming.rx_mono_ns.0;
        let t_cand = cand.rx_mono_ns.0;
        let ghost old_best = best_idx;
        if cand.direction == incoming.direction && t_inc != t_cand {
            let diff = if t_inc >= t_cand { t_inc - t_cand } else { t_cand - t_inc };
            if diff <= window_ns {
                if diff < min_diff {
                    min_diff = diff;
                    best_idx = Some(i);
                } else if diff == min_diff {
                    if let Some(curr_best) = best_idx {
                        if cand.trigger_sequence < candidates[curr_best].trigger_sequence {
                            best_idx = Some(i);
                        }
                    }
                }
            }
        }
        proof {
            let t = c.take(i as int + 1);
            assert forall|j: int| 0 <= j < i ==> #[trigger] t[j] == c[j] by {}
            assert(t[i as int] == c[i as int]);
            if best_idx is Some {
                let b = best_idx->0 as int;
                assert forall|j: int| 0 <= j < b && can_pair(#[trigger] t[j], *incoming, window_ns) implies pairs_better(t[b], t[j], *incoming) by {
                    if old_best is Some && b == i {
                        let ob = old_best->0 as int;
                        assert(c.take(i as int)[j] == c[j]);
                        if j != ob {
                            assert(c.take(i as int)[ob] == c[ob]);
                        }
                    } else if old_best is Some {
                        assert(c.take(i as int)[j] == c[j]);
                    }
                }
                assert forall|j: int| b < j < t.len() && can_pair(#[trigger] t[j], *incoming, window_ns) implies !pairs_better(t[j], t[b], *incoming) by {
                    if j < i {
                        assert(c.take(i as int)[j] == c[j]);
                        assert(c.take(i as int)[b] == c[b]);
                    }
                }
            }
        }
        i = i + 1;
    }
    proof {
        assert(c.take(c.len() as int) =~= c);
    }
    best_idx
}

impl OneToOneEventMatcher {
    /// A matcher of the moves of `broker_a` and `broker_b` within
    /// `window_ms` milliseconds, keeping up to `capacity` waiting moves of
    /// each, for the analysis segment `segment_id`.
    pub fn new(
        broker_a: BrokerId,
        broker_b: BrokerId,
        window_ms: u64,
        capacity: usize,
        segment_id: AnalysisSegmentId,
    ) -> (r: Self)
        requires
            window_ms * 1_000_000 <= u64::MAX,
        ensures
            r@ == (MatcherView {
                broker_a,
                broker_b,
                window_ns: (window_ms * 1_000_000) as u64,
                pending_a: Seq::empty(),
                pending_b: Seq::empty(),
                match_count: 0,
                capacity,
                segment_id,
            }),
            times_fit(r@),
    {
        OneToOneEventMatcher {
            broker_a,
            broker_b,
            window_ns: window_ms * 1_000_000,
            pending_a: VecDeque::new(),
            pending_b: VecDeque::new(),
            match_count: 0,
            capacity,
            segment_id,
        }
    }

    pub fn broker_a(&self) -> (r: BrokerId)
        ensures
            r == self@.broker_a,
    {
        self.broker_a
    }

    pub fn broker_b(&self) -> (r: BrokerId)
        ensures
            r == self@.broker_b,
    {
        self.broker_b
    }

    /// How many matches were made since the last reset.
    pub fn match_count(&self) -> (r: u64)
        ensures
            r == self@.match_count,
    {
        self.match_count
    }

    /// How many moves of A and of B wait for a partner.
    pub fn pending_lens(&self) -> (r: (usize, usize))
        ensures
            r.0 == self@.pending_a.len(),
            r.1 == self@.pending_b.len(),
    {
        (self.pending_a.len(), self.pending_b.len())
    }

    /// Forgets the waiting moves and the match count, and follows the
    /// analysis segment `new_segment_id`.
    pub fn reset(&mut self, new_segment_id: AnalysisSegmentId)
        ensures
            final(self)@ == (MatcherView {
                pending_a: Seq::empty(),
                pending_b: Seq::empty(),
                match_count: 0,
                segment_id: new_segment_id,
                ..old(self)@
            }),
            times_fit(final(self)@),
    {
        self.pending_a.clear();
        self.pending_b.clear();
        self.match_count = 0;
        self.segment_id = new_segment_id;
    }

    fn create_match(&mut self, event_a: MoveEvent, event_b: MoveEvent) -> (r: LeadLagMatch)
        requires
            old(self).match_count < u64::MAX,
            event_a.rx_mono_ns.0 <= i64::MAX,
            event_b.rx_mono_ns.0 <= i64::MAX,
        ensures
            r == match_of(old(self)@, event_a, event_b),
            final(self)@ == (MatcherView { match_count: (old(self)@.match_count + 1) as u64, ..old(self)@ }),
    {
        let ghost v = self@;
        self.match_count = self.match_count + 1;
        let t_a = event_a.rx_mono_ns;
        let t_b = event_b.rx_mono_ns;
        let signed_delta_ns: i64 = (t_b.0 as i64) - (t_a.0 as i64);
        let abs_delta_ns: u64 = if t_b.0 >= t_a.0 { t_b.0 - t_a.0 } else { t_a.0 - t_b.0 };
        let (leader, follower) = if signed_delta_ns > 0 {
            (self.broker_a, self.broker_b)
        } else {
            (self.broker_b, self.broker_a)
        };
        LeadLagMatch {
            match_id: self.match_count,
            leader,
            follower,
            leader_event: if leader == self.broker_a { event_a } else { event_b },
            follower_event: if follower == self.broker_a { event_a } else { event_b },
            t_leader: if leader == self.broker_a { t_a } else { t_b },
            t_follower: if follower == self.broker_a { t_a } else { t_b },
            signed_delta_ns,
            abs_delta_ns,
            segment_id: self.segment_id,
        }
    }

    /// Takes in a move, as `matcher_step` says.
    pub fn on_event(&mut self, event: MoveEvent) -> (r: Option<LeadLagMatch>)
        requires
            times_fit(old(self)@),
            event.rx_mono_ns.0 <= i64::MAX,
            old(self)@.match_count < u64::MAX,
        ensures
            (final(self)@, r) == matcher_step(old(self)@, event),
            times_fit(final(self)@),
            r matches Some(m) ==> m.leader_event.direction == event.direction
                && m.follower_event.direction == event.direction,
    {
        proof {
            lemma_match_same_direction(self@, event);
        }
        let ghost v = self@;
        if event.segment_id != self.segment_id {
            return None;
        }
        if event.broker_id == self.broker_a {
            match find_best_match(&event, &self.pending_b, self.window_ns) {
                Some(idx) => {
                    proof {
                        lemma_best_match_unique(v.pending_b, event, v.window_ns, idx as int, best_match(v.pending_b, event, v.window_ns));
                    }
                    let other = self.pending_b.remove(idx).unwrap();
                    proof {
                        assert forall|j: int| 0 <= j < self.pending_b@.len() implies (#[trigger] self.pending_b@[j]).rx_mono_ns.0 <= i64::MAX by {
                            if j < idx {
                                assert(self.pending_b@[j] == v.pending_b[j]);
                            } else {
                                assert(self.pending_b@[j] == v.pending_b[j + 1]);
                            }
                        }
                    }
                    return Some(self.create_match(event, other));
                },
                None => {
                    if self.pending_a.len() >= self.capacity && self.pending_a.len() > 0 {
                        self.pending_a.pop_front();
                    }
                    self.pending_a.push_back(event);
                    proof {
                        assert(self.pending_a@ =~= push_bounded(v.pending_a, event, v.capacity));
                        assert forall|j: int| 0 <= j < self.pending_a@.len() implies (#[trigger] self.pending_a@[j]).rx_mono_ns.0 <= i64::MAX by {
                            if j < self.pending_a@.len() - 1 {
                                if v.pending_a.len() >= v.capacity && v.pending_a.len() > 0 {
                                    assert(self.pending_a@[j] == v.pending_a[j + 1]);
                                } else {
                                    assert(self.pending_a@[j] == v.pending_a[j]);
                                }
                            }
                        }
                    }
                },
            }
        } else if event.broker_id == self.broker_b {
            match find_best_match(&event, &self.pending_a, self.window_ns) {
                Some(idx) => {
                    proof {
                        lemma_best_match_unique(v.pending_a, event, v.window_ns, idx as int, best_match(v.pending_a, event, v.window_ns));
                    }
                    let other = self.pending_a.remove(idx).unwrap();
                    proof {
                        assert forall|j: int| 0 <= j < self.pending_a@.len() implies (#[trigger] self.pending_a@[j]).rx_mono_ns.0 <= i64::MAX by {
                            if j < idx {
                                assert(self.pending_a@[j] == v.pending_a[j]);
                            } else {
                                assert(self.pending_a@[j] == v.pending_a[j + 1]);
                            }
                        }
                    }
                    return Some(self.create_match(other, event));
                },
                None => {
                    if self.pending_b.len() >= self.capacity && self.pending_b.len() > 0 {
                        self.pending_b.pop_front();
                    }
                    self.pending_b.push_back(event);
                    proof {
                        assert(self.pending_b@ =~= push_bounded(v.pending_b, event, v.capacity));
                        assert forall|j: int| 0 <= j < self.pending_b@.len() implies (#[trigger] self.pending_b@[j]).rx_mono_ns.0 <= i64::MAX by {
                            if j < self.pending_b@.len() - 1 {
                                if v.pending_b.len() >= v.capacity && v.pending_b.len() > 0 {
                                    assert(self.pending_b@[j] == v.pending_b[j + 1]);
                                } else {
                                    assert(self.pending_b@[j] == v.pending_b[j]);
                                }
                            }
                        }
                    }
                },
            }
        }
        None
    }

    /// Drops the leading waiting moves of both brokers received before
    /// `watermark - window`.
    pub fn advance_watermark(&mut self, watermark: MonoNs)
        requires
            times_fit(old(self)@),
        ensures
            final(self)@ == (MatcherView {
                pending_a: drop_before(old(self)@.pending_a, sat_sub_u64(watermark.0, old(self)@.window_ns)),
                pending_b: drop_before(old(self)@.pending_b, sat_sub_u64(watermark.0, old(self)@.window_ns)),
                ..old(self)@
            }),
            times_fit(final(self)@),
    {
        let threshold = watermark.0.saturating_sub(self.window_ns);
        let ghost v = self@;
        while self.pending_a.len() > 0 && self.pending_a[0].rx_mono_ns.0 < threshold
            invariant
                drop_before(self.pending_a@, threshold) == drop_before(v.pending_a, threshold),
                self.pending_b@ == v.pending_b,
                forall|j: int| 0 <= j < self.pending_a@.len() ==> (#[trigger] self.pending_a@[j]).rx_mono_ns.0 <= i64::MAX,
                self.broker_a == v.broker_a && self.broker_b == v.broker_b && self.window_ns == v.window_ns,
                self.match_count == v.match_count && self.capacity == v.capacity && self.segment_id == v.segment_id,
            decreases self.pending_a@.len(),
        {
            let ghost before = self.pending_a@;
            self.pending_a.pop_front();
            assert(self.pending_a@ =~= before.drop_first());
            assert forall|j: int| 0 <= j < self.pending_a@.len() implies (#[trigger] self.pending_a@[j]).rx_mono_ns.0 <= i64::MAX by {
                assert(self.pending_a@[j] == before[j + 1]);
            }
        }
        while self.pending_b.len() > 0 && self.pending_b[0].rx_mono_ns.0 < threshold
            invariant
                drop_before(self.pending_b@, threshold) == drop_before(v.pending_b, threshold),
                self.pending_a@ == drop_before(v.pending_a, threshold),
                forall|j: int| 0 <= j < self.pending_a@.len() ==> (#[trigger] self.pending_a@[j]).rx_mono_ns.0 <= i64::MAX,
                forall|j: int| 0 <= j < self.pending_b@.len() ==> (#[trigger] self.pending_b@[j]).rx_mono_ns.0 <= i64::MAX,
                self.broker_a == v.broker_a && self.broker_b == v.broker_b && self.window_ns == v.window_ns,
                self.match_count == v.match_count && self.capacity == v.capacity && self.segment_id == v.segment_id,
            decreases self.pending_b@.len(),
        {
            let ghost before = self.pending_b@;
            self.pending_b.pop_front();
            assert(self.pending_b@ =~= before.drop_first());
            assert forall|j: int| 0 <= j < self.pending_b@.len() implies (#[trigger] self.pending_b@[j]).rx_mono_ns.0 <= i64::MAX by {
                assert(self.pending_b@[j] == before[j + 1]);
            }
        }
    }
}

} // verus!
