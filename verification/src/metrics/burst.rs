//! Quote geometry classes, multi-broker move clusters and directional
//! move breadth.

use crate::contracts::models::{MoveDirection, MoveEvent};
use crate::contracts::types::{BrokerId, MonoNs};
use crate::text::{dec, push_char, push_dec};
use std::collections::VecDeque;
use vstd::prelude::*;

verus! {

/// How the two sides of a quote moved between two observations.
#[derive(Debug, Clone, Copy, PartialEq, Eq, Hash, Structural)]
pub enum QuoteGeometry {
    TwoSideDirectional,
    BidOnly,
    AskOnly,
    SpreadExpansion,
    SpreadCompression,
    OppositeSideMove,
    MixedQuote,
}

/// How many brokers moved up and down within the rolling window.
#[derive(Debug, Clone, Copy, PartialEq, Eq, Structural)]
pub struct MoveBreadth {
    pub up_count: usize,
    pub down_count: usize,
    pub stale_count: usize,
    pub total_brokers: usize,
}

/// `n/total`.
pub open spec fn ratio_text(n: nat, total: nat) -> Seq<char> {
    dec(n) + "/"@ + dec(total)
}

fn ratio_string(n: usize, total: usize) -> (r: String)
    ensures
        r@ == ratio_text(n as nat, total as nat),
{
    let mut s = String::new();
    push_dec(&mut s, n as u64);
    push_char(&mut s, '/');
    push_dec(&mut s, total as u64);
    proof {
        reveal_strlit("/");
        assert(s@ =~= ratio_text(n as nat, total as nat));
    }
    s
}

impl MoveBreadth {
    /// The upward breadth as `up/total`.
    pub fn up_ratio_str(&self) -> (r: String)
        ensures
            r@ == ratio_text(self.up_count as nat, self.total_brokers as nat),
    {
        ratio_string(self.up_count, self.total_brokers)
    }

    /// The downward breadth as `down/total`.
    pub fn down_ratio_str(&self) -> (r: String)
        ensures
            r@ == ratio_text(self.down_count as nat, self.total_brokers as nat),
    {
        ratio_string(self.down_count, self.total_brokers)
    }
}


// ---------------------------------------------------------------------
// Clusters and breadth
// ---------------------------------------------------------------------

/// A cluster of moves in one direction across several brokers within the
/// rolling window. It is an observation, never a trading signal.
#[derive(Debug, Clone, PartialEq, Eq)]
pub struct EventCluster {
    pub direction: MoveDirection,
    /// The brokers taking part, in the order of their first move.
    pub participating_brokers: Vec<BrokerId>,
    pub fresh_count: usize,
    pub total_brokers: usize,
    /// Nanoseconds from the first counted move to the last.
    pub observed_span_ns: u64,
    pub first_observed: BrokerId,
    pub last_observed: BrokerId,
    pub start_mono: MonoNs,
    pub end_mono: MonoNs,
}

/// `a - b`, or 0 where `b > a`.
pub open spec fn sat_sub_u64(a: u64, b: u64) -> u64 {
    if a >= b {
        (a - b) as u64
    } else {
        0
    }
}

/// `a * b`, or `u64::MAX` where the product does not fit.
pub open spec fn sat_mul_u64(a: u64, b: u64) -> u64 {
    if a * b <= u64::MAX {
        (a * b) as u64
    } else {
        u64::MAX
    }
}

/// The brokers of `s`, each once, in the order of their first appearance.
pub open spec fn first_seen(s: Seq<BrokerId>) -> Seq<BrokerId>
    decreases s.len(),
{
    if s.len() == 0 {
        Seq::empty()
    } else {
        let p = first_seen(s.drop_last());
        if p.contains(s.last()) {
            p
        } else {
            p.push(s.last())
        }
    }
}

/// The broker of each event of `s`.
pub open spec fn brokers_of(s: Seq<MoveEvent>) -> Seq<BrokerId> {
    s.map_values(|e: MoveEvent| e.broker_id)
}

/// Whether `e` was received within `[cutoff, now]`.
pub open spec fn in_window(e: MoveEvent, cutoff: u64, now: MonoNs) -> bool {
    cutoff <= e.rx_mono_ns.0 && e.rx_mono_ns.0 <= now.0
}

/// The events of `s`, in order, received within `[cutoff, now]` from a
/// broker not in `stale`.
pub open spec fn window_events(s: Seq<MoveEvent>, cutoff: u64, now: MonoNs, stale: Seq<BrokerId>) -> Seq<MoveEvent>
    decreases s.len(),
{
    if s.len() == 0 {
        Seq::empty()
    } else {
        let p = window_events(s.drop_last(), cutoff, now, stale);
        let e = s.last();
        if in_window(e, cutoff, now) && !stale.contains(e.broker_id) {
            p.push(e)
        } else {
            p
        }
    }
}

/// The events of `s` in `direction`.
pub open spec fn moves_in(s: Seq<MoveEvent>, direction: MoveDirection) -> Seq<MoveEvent>
    decreases s.len(),
{
    if s.len() == 0 {
        Seq::empty()
    } else {
        let p = moves_in(s.drop_last(), direction);
        if s.last().direction == direction {
            p.push(s.last())
        } else {
            p
        }
    }
}

/// `s` without its leading events received before `cutoff`.
pub open spec fn drop_before(s: Seq<MoveEvent>, cutoff: u64) -> Seq<MoveEvent>
    decreases s.len(),
{
    if s.len() > 0 && s[0].rx_mono_ns.0 < cutoff {
        drop_before(s.drop_first(), cutoff)
    } else {
        s
    }
}

/// The brokers of a cluster are distinct, and they are exactly the brokers
/// of the moves that form it.
pub proof fn lemma_cluster_participants(
    c: EventCluster,
    q: Seq<MoveEvent>,
    direction: MoveDirection,
    total_brokers: usize,
    fresh_count: usize,
)
    requires
        is_cluster_of(c, q, direction, total_brokers, fresh_count),
    ensures
        c.participating_brokers@.no_duplicates(),
        forall|b: BrokerId| c.participating_brokers@.contains(b) <==> brokers_of(q).contains(b),
        c.participating_brokers@.contains(c.first_observed),
        c.participating_brokers@.contains(c.last_observed),
{
    let bs = brokers_of(q);
    lemma_first_seen(bs);
    assert(bs[0] == c.first_observed);
    assert(bs[q.len() - 1] == c.last_observed);
    assert(bs.contains(c.first_observed));
    assert(bs.contains(c.last_observed));
    assert(first_seen(bs).contains(c.first_observed));
    assert(first_seen(bs).contains(c.last_observed));
}

/// Whether `c` is the cluster in `direction` that the events `q` form.
pub open spec fn is_cluster_of(
    c: EventCluster,
    q: Seq<MoveEvent>,
    direction: MoveDirection,
    total_brokers: usize,
    fresh_count: usize,
) -> bool {
    &&& q.len() > 0
    &&& c.direction == direction
    &&& c.participating_brokers@ == first_seen(brokers_of(q))
    &&& c.fresh_count == fresh_count
    &&& c.total_brokers == total_brokers
    &&& c.first_observed == q[0].broker_id
    &&& c.start_mono == q[0].rx_mono_ns
    &&& c.last_observed == q.last().broker_id
    &&& c.end_mono == q.last().rx_mono_ns
    &&& c.observed_span_ns == sat_sub_u64(q.last().rx_mono_ns.0, q[0].rx_mono_ns.0)
}

/// The direction of the last event of broker `b` in `s`.
pub open spec fn last_direction(s: Seq<MoveEvent>, b: BrokerId) -> Option<MoveDirection>
    decreases s.len(),
{
    if s.len() == 0 {
        None
    } else if s.last().broker_id == b {
        Some(s.last().direction)
    } else {
        last_direction(s.drop_last(), b)
    }
}

/// Each broker of `s`, in the order of its first event, with the direction
/// of its last event.
pub open spec fn latest_moves(s: Seq<MoveEvent>) -> Seq<(BrokerId, MoveDirection)> {
    let fs = first_seen(brokers_of(s));
    Seq::new(fs.len(), |j: int| (fs[j], last_direction(s, fs[j]).unwrap()))
}

/// How many entries of `m` go in direction `d`.
pub open spec fn count_direction(m: Seq<(BrokerId, MoveDirection)>, d: MoveDirection) -> nat
    decreases m.len(),
{
    if m.len() == 0 {
        0
    } else {
        count_direction(m.drop_last(), d) + if m.last().1 == d {
            1nat
        } else {
            0nat
        }
    }
}

/// A broker appears at most once in `first_seen(s)`, and exactly the
/// brokers of `s` appear there.
pub proof fn lemma_first_seen(s: Seq<BrokerId>)
    ensures
        first_seen(s).no_duplicates(),
        forall|b: BrokerId| first_seen(s).contains(b) <==> s.contains(b),
    decreases s.len(),
{
    if s.len() > 0 {
        lemma_first_seen(s.drop_last());
        let p = first_seen(s.drop_last());
        assert forall|b: BrokerId| s.contains(b) <==> (s.drop_last().contains(b) || b == s.last()) by {
            if s.contains(b) {
                let i = choose|i: int| 0 <= i < s.len() && s[i] == b;
                if i < s.len() - 1 {
                    assert(s.drop_last()[i] == b);
                }
            }
            if s.drop_last().contains(b) {
                let i = choose|i: int| 0 <= i < s.drop_last().len() && s.drop_last()[i] == b;
                assert(s[i] == b);
            }
            if b == s.last() {
                assert(s[s.len() - 1] == b);
            }
        }
        if !p.contains(s.last()) {
            assert forall|b: BrokerId| p.push(s.last()).contains(b) <==> (p.contains(b) || b == s.last()) by {
                if p.push(s.last()).contains(b) {
                    let i = choose|i: int| 0 <= i < p.push(s.last()).len() && p.push(s.last())[i] == b;
                    if i < p.len() {
                        assert(p[i] == b);
                    }
                }
                if p.contains(b) {
                    let i = choose|i: int| 0 <= i < p.len() && p[i] == b;
                    assert(p.push(s.last())[i] == b);
                }
                if b == s.last() {
                    assert(p.push(s.last())[p.len() as int] == b);
                }
            }
        }
    }
}

/// Appending `e` to the events appends its broker.
proof fn lemma_brokers_push(s: Seq<MoveEvent>, e: MoveEvent)
    ensures
        brokers_of(s.push(e)) == brokers_of(s).push(e.broker_id),
        brokers_of(s).len() == s.len(),
{
    assert(brokers_of(s.push(e)) =~= brokers_of(s).push(e.broker_id));
}

/// Whether `b` occurs in `v`.
fn contains_broker(v: &[BrokerId], b: BrokerId) -> (r: bool)
    ensures
        r == v@.contains(b),
{
    let mut i: usize = 0;
    while i < v.len()
        invariant
            i <= v@.len(),
            forall|j: int| 0 <= j < i ==> v@[j] != b,
        decreases v@.len() - i,
    {
        if v[i] == b {
            return true;
        }
        i = i + 1;
    }
    false
}

/// A rolling detector of multi-broker move clusters and of move breadth.
pub struct MultiBrokerBurstDetector {
    /// The rolling window in nanoseconds.
    pub window_ns: u64,
    /// The least number of brokers that makes a cluster.
    pub min_brokers: usize,
    recent_events: VecDeque<MoveEvent>,
}

impl MultiBrokerBurstDetector {
    /// The events held, oldest first.
    pub closed spec fn events(&self) -> Seq<MoveEvent> {
        self.recent_events@
    }

    /// The rolling window in nanoseconds.
    pub closed spec fn window(&self) -> u64 {
        self.window_ns
    }

    /// The least number of brokers that makes a cluster.
    pub closed spec fn min_count(&self) -> usize {
        self.min_brokers
    }

    /// A detector with a window of `window_ms` milliseconds that needs at
    /// least `min_brokers` brokers, and at least one, for a cluster.
    pub fn new(window_ms: u64, min_brokers: usize) -> (r: Self)
        ensures
            r.window() == sat_mul_u64(window_ms, 1_000_000),
            r.min_count() == if min_brokers >= 1 { min_brokers } else { 1 },
            r.events() == Seq::<MoveEvent>::empty(),
    {
        MultiBrokerBurstDetector {
            window_ns: match window_ms.checked_mul(1_000_000) {
                Some(ns) => ns,
                None => u64::MAX,
            },
            min_brokers: if min_brokers >= 1 { min_brokers } else { 1 },
            recent_events: VecDeque::new(),
        }
    }

    /// The window in whole milliseconds.
    pub fn window_ms(&self) -> (r: u64)
        ensures
            r == self.window() / 1_000_000,
    {
        self.window_ns / 1_000_000
    }

    /// Forgets every event.
    pub fn clear(&mut self)
        ensures
            final(self).events() == Seq::<MoveEvent>::empty(),
            final(self).window() == old(self).window(),
            final(self).min_count() == old(self).min_count(),
    {
        self.recent_events.clear();
    }

    fn drop_front_before(&mut self, cutoff: u64)
        ensures
            final(self).events() == drop_before(old(self).events(), cutoff),
            final(self).window() == old(self).window(),
            final(self).min_count() == old(self).min_count(),
    {
        while self.recent_events.len() > 0 && self.recent_events[0].rx_mono_ns.0 < cutoff
            invariant
                drop_before(self.recent_events@, cutoff) == drop_before(old(self).events(), cutoff),
                self.window() == old(self).window(),
                self.min_count() == old(self).min_count(),
            decreases self.recent_events@.len(),
        {
            let ghost before = self.recent_events@;
            self.recent_events.pop_front();
            assert(self.recent_events@ =~= before.drop_first());
        }
    }

    /// Drops the leading events received before `now_mono - window`.
    pub fn prune_older_than(&mut self, now_mono: MonoNs)
        ensures
            final(self).events() == drop_before(old(self).events(), sat_sub_u64(now_mono.0, old(self).window())),
            final(self).window() == old(self).window(),
            final(self).min_count() == old(self).min_count(),
    {
        let cutoff = now_mono.0.saturating_sub(self.window_ns);
        self.drop_front_before(cutoff);
    }

    /// Records a move after dropping the leading events that fell out of
    /// the window ending at it, and reports the cluster in its direction
    /// that the window then holds.
    pub fn on_event(&mut self, event: MoveEvent, total_brokers: usize, fresh_count: usize) -> (r: Option<EventCluster>)
        ensures
            final(self).events() == drop_before(old(self).events(), sat_sub_u64(event.rx_mono_ns.0, old(self).window())).push(event),
            final(self).window() == old(self).window(),
            final(self).min_count() == old(self).min_count(),
            r is Some <==> final(self).forms_cluster(event.direction, event.rx_mono_ns, Seq::empty()),
            r is Some ==> is_cluster_of(
                r->0,
                final(self).cluster_events(event.direction, event.rx_mono_ns, Seq::empty()),
                event.direction,
                total_brokers,
                fresh_count,
            ),
    {
        let cutoff = event.rx_mono_ns.0.saturating_sub(self.window_ns);
        self.drop_front_before(cutoff);
        let direction = event.direction;
        self.recent_events.push_back(event);
        self.detect_cluster(direction, total_brokers, fresh_count)
    }

    /// The events that count toward a cluster in `direction` at `now`:
    /// those in the window ending at `now`, in that direction, of a broker
    /// not in `stale`, in the order held.
    pub open spec fn cluster_events(&self, direction: MoveDirection, now: MonoNs, stale: Seq<BrokerId>) -> Seq<MoveEvent> {
        moves_in(window_events(self.events(), sat_sub_u64(now.0, self.window()), now, stale), direction)
    }

    /// Whether enough brokers took part in the moves that count toward a
    /// cluster in `direction` at `now`.
    pub open spec fn forms_cluster(&self, direction: MoveDirection, now: MonoNs, stale: Seq<BrokerId>) -> bool {
        let q = self.cluster_events(direction, now, stale);
        q.len() > 0 && first_seen(brokers_of(q)).len() >= self.min_count()
    }

    /// Each broker with a move in the window ending at `now`, not in
    /// `stale`, with the direction of its last such move.
    pub open spec fn breadth_moves(&self, now: MonoNs, stale: Seq<BrokerId>) -> Seq<(BrokerId, MoveDirection)> {
        latest_moves(window_events(self.events(), sat_sub_u64(now.0, self.window()), now, stale))
    }

    /// The cluster in `direction` that the window ending at the latest event
    /// holds; none while no event is held.
    pub fn detect_cluster(&self, direction: MoveDirection, total_brokers: usize, fresh_count: usize) -> (r: Option<EventCluster>)
        ensures
            r is Some <==> (self.events().len() > 0
                && self.forms_cluster(direction, self.events().last().rx_mono_ns, Seq::empty())),
            r is Some ==> is_cluster_of(
                r->0,
                self.cluster_events(direction, self.events().last().rx_mono_ns, Seq::empty()),
                direction,
                total_brokers,
                fresh_count,
            ),
    {
        let n = self.recent_events.len();
        if n == 0 {
            return None;
        }
        let now = self.recent_events[n - 1].rx_mono_ns;
        let none: Vec<BrokerId> = Vec::new();
        proof {
            assert(none@ =~= Seq::<BrokerId>::empty());
        }
        self.detect_cluster_at(direction, total_brokers, fresh_count, now, none.as_slice())
    }

    /// The cluster in `direction` that the window ending at `now` holds,
    /// leaving out the moves of the brokers in `stale_brokers`.
    pub fn detect_cluster_at(
        &self,
        direction: MoveDirection,
        total_brokers: usize,
        fresh_count: usize,
        now: MonoNs,
        stale_brokers: &[BrokerId],
    ) -> (r: Option<EventCluster>)
        ensures
            r is Some <==> self.forms_cluster(direction, now, stale_brokers@),
            r is Some ==> is_cluster_of(
                r->0,
                self.cluster_events(direction, now, stale_brokers@),
                direction,
                total_brokers,
                fresh_count,
            ),
    {
        let cutoff = now.0.saturating_sub(self.window_ns);
        let ghost s = self.recent_events@;
        let mut participating: Vec<BrokerId> = Vec::new();
        let mut first: Option<(BrokerId, MonoNs)> = None;
        let mut last: Option<(BrokerId, MonoNs)> = None;
        let mut i: usize = 0;
        while i < self.recent_events.len()
            invariant
                s == self.recent_events@,
                cutoff == sat_sub_u64(now.0, self.window()),
                i <= s.len(),
                scan_state(
                    participating@,
                    first,
                    last,
                    moves_in(window_events(s.take(i as int), cutoff, now, stale_brokers@), direction),
                ),
            decreases s.len() - i,
        {
            let ev = self.recent_events[i];
            let ghost w = window_events(s.take(i as int), cutoff, now, stale_brokers@);
            proof {
                lemma_take_step(s, i as int);
            }
            let stale = contains_broker(stale_brokers, ev.broker_id);
            if cutoff <= ev.rx_mono_ns.0 && ev.rx_mono_ns.0 <= now.0 && !stale {
                proof {
                    assert(w.push(ev).drop_last() =~= w);
                }
                if ev.direction == direction {
                    let ghost q = moves_in(w, direction);
                    proof {
                        assert(moves_in(w.push(ev), direction) == q.push(ev));
                        lemma_brokers_push(q, ev);
                        assert(brokers_of(q.push(ev)).drop_last() =~= brokers_of(q));
                    }
                    if !contains_broker(participating.as_slice(), ev.broker_id) {
                        participating.push(ev.broker_id);
                    }
                    if first.is_none() {
                        first = Some((ev.broker_id, ev.rx_mono_ns));
                    }
                    last = Some((ev.broker_id, ev.rx_mono_ns));
                    proof {
                        assert(q.push(ev)[0] == if q.len() > 0 { q[0] } else { ev });
                    }
                }
            }
            i = i + 1;
        }
        proof {
            assert(s.take(s.len() as int) =~= s);
        }
        if participating.len() >= self.min_brokers {
            match (first, last) {
                (Some((first_broker, start)), Some((last_broker, end))) => Some(EventCluster {
                    direction,
                    participating_brokers: participating,
                    fresh_count,
                    total_brokers,
                    observed_span_ns: end.0.saturating_sub(start.0),
                    first_observed: first_broker,
                    last_observed: last_broker,
                    start_mono: start,
                    end_mono: end,
                }),
                _ => None,
            }
        } else {
            None
        }
    }

    fn latest_moves_at(&self, stale_brokers: &[BrokerId], now: MonoNs) -> (r: Vec<(BrokerId, MoveDirection)>)
        ensures
            r@ == self.breadth_moves(now, stale_brokers@),
    {
        let cutoff = now.0.saturating_sub(self.window_ns);
        let ghost s = self.recent_events@;
        let mut entries: Vec<(BrokerId, MoveDirection)> = Vec::new();
        let mut i: usize = 0;
        proof {
            assert(entries@ =~= latest_moves(Seq::empty()));
            assert(s.take(0) =~= Seq::<MoveEvent>::empty());
        }
        while i < self.recent_events.len()
            invariant
                s == self.recent_events@,
                cutoff == sat_sub_u64(now.0, self.window()),
                i <= s.len(),
                entries@ == latest_moves(window_events(s.take(i as int), cutoff, now, stale_brokers@)),
            decreases s.len() - i,
        {
            let ev = self.recent_events[i];
            let ghost w = window_events(s.take(i as int), cutoff, now, stale_brokers@);
            proof {
                lemma_take_step(s, i as int);
            }
            let stale = contains_broker(stale_brokers, ev.broker_id);
            if cutoff <= ev.rx_mono_ns.0 && ev.rx_mono_ns.0 <= now.0 && !stale {
                let mut k: usize = 0;
                while k < entries.len()
                    invariant
                        k <= entries@.len(),
                        forall|j: int| 0 <= j < k ==> entries@[j].0 != ev.broker_id,
                    ensures
                        k <= entries@.len(),
                        forall|j: int| 0 <= j < k ==> entries@[j].0 != ev.broker_id,
                        k < entries@.len() ==> entries@[k as int].0 == ev.broker_id,
                    decreases entries@.len() - k,
                {
                    if entries[k].0 == ev.broker_id {
                        break;
                    }
                    k = k + 1;
                }
                if k < entries.len() {
                    proof {
                        lemma_latest_push_known(w, ev, k as int);
                    }
                    entries.set(k, (ev.broker_id, ev.direction));
                } else {
                    proof {
                        lemma_latest_push_new(w, ev);
                    }
                    entries.push((ev.broker_id, ev.direction));
                }
            }
            i = i + 1;
        }
        proof {
            assert(s.take(s.len() as int) =~= s);
        }
        entries
    }

    /// The breadth of the window ending at `now`: of the brokers that moved
    /// in it, how many moved last up and how many down.
    pub fn compute_breadth(&self, total_brokers: usize, stale_count: usize, now_mono: MonoNs) -> (r: MoveBreadth)
        ensures
            r.up_count == count_direction(self.breadth_moves(now_mono, Seq::empty()), MoveDirection::Up),
            r.down_count == count_direction(self.breadth_moves(now_mono, Seq::empty()), MoveDirection::Down),
            r.stale_count == stale_count,
            r.total_brokers == total_brokers,
    {
        let none: Vec<BrokerId> = Vec::new();
        proof {
            assert(none@ =~= Seq::<BrokerId>::empty());
        }
        let moves = self.latest_moves_at(none.as_slice(), now_mono);
        let (up_count, down_count) = count_moves(&moves);
        MoveBreadth { up_count, down_count, stale_count, total_brokers }
    }

    /// The breadth of the window ending at `now`, leaving out the brokers
    /// in `stale_brokers`, whose number it reports as stale.
    pub fn compute_breadth_with_stale_brokers(
        &self,
        total_brokers: usize,
        stale_brokers: &[BrokerId],
        now_mono: MonoNs,
    ) -> (r: MoveBreadth)
        ensures
            r.up_count == count_direction(self.breadth_moves(now_mono, stale_brokers@), MoveDirection::Up),
            r.down_count == count_direction(self.breadth_moves(now_mono, stale_brokers@), MoveDirection::Down),
            r.stale_count == stale_brokers@.len(),
            r.total_brokers == total_brokers,
    {
        let moves = self.latest_moves_at(stale_brokers, now_mono);
        let (up_count, down_count) = count_moves(&moves);
        MoveBreadth { up_count, down_count, stale_count: stale_brokers.len(), total_brokers }
    }
}

impl Default for MultiBrokerBurstDetector {
    /// A window of 100 ms and clusters of at least two brokers.
    fn default() -> (r: Self)
        ensures
            r.window() == 100_000_000,
            r.min_count() == 2,
            r.events() == Seq::<MoveEvent>::empty(),
    {
        MultiBrokerBurstDetector::new(100, 2)
    }
}

/// What the scan of the counted moves `q` has gathered so far: the brokers
/// in order of first move, the first move and the last.
pub open spec fn scan_state(
    participating: Seq<BrokerId>,
    first: Option<(BrokerId, MonoNs)>,
    last: Option<(BrokerId, MonoNs)>,
    q: Seq<MoveEvent>,
) -> bool {
    &&& participating == first_seen(brokers_of(q))
    &&& (q.len() == 0 ==> first is None && last is None)
    &&& (q.len() > 0 ==> first == Some((q[0].broker_id, q[0].rx_mono_ns))
        && last == Some((q.last().broker_id, q.last().rx_mono_ns)))
}

proof fn lemma_take_step(s: Seq<MoveEvent>, i: int)
    requires
        0 <= i < s.len(),
    ensures
        s.take(i + 1).drop_last() == s.take(i),
        s.take(i + 1).last() == s[i],
        s.take(i + 1).len() > 0,
{
    assert(s.take(i + 1).drop_last() =~= s.take(i));
}

proof fn lemma_last_direction_push(w: Seq<MoveEvent>, e: MoveEvent, b: BrokerId)
    ensures
        last_direction(w.push(e), b) == if e.broker_id == b {
            Some(e.direction)
        } else {
            last_direction(w, b)
        },
{
    assert(w.push(e).drop_last() =~= w);
}

proof fn lemma_first_seen_push(w: Seq<MoveEvent>, e: MoveEvent)
    ensures
        first_seen(brokers_of(w.push(e))) == if first_seen(brokers_of(w)).contains(e.broker_id) {
            first_seen(brokers_of(w))
        } else {
            first_seen(brokers_of(w)).push(e.broker_id)
        },
{
    lemma_brokers_push(w, e);
    assert(brokers_of(w).push(e.broker_id).drop_last() =~= brokers_of(w));
}

proof fn lemma_latest_push_known(w: Seq<MoveEvent>, e: MoveEvent, k: int)
    requires
        0 <= k < latest_moves(w).len(),
        latest_moves(w)[k].0 == e.broker_id,
    ensures
        latest_moves(w.push(e)) == latest_moves(w).update(k, (e.broker_id, e.direction)),
{
    let fs = first_seen(brokers_of(w));
    lemma_first_seen(brokers_of(w));
    lemma_first_seen_push(w, e);
    assert(fs[k] == e.broker_id);
    assert(fs.contains(e.broker_id));
    assert forall|j: int| 0 <= j < fs.len() implies last_direction(w.push(e), fs[j]) == if j == k {
        Some(e.direction)
    } else {
        last_direction(w, fs[j])
    } by {
        lemma_last_direction_push(w, e, fs[j]);
    }
    assert(latest_moves(w.push(e)) =~= latest_moves(w).update(k, (e.broker_id, e.direction)));
}

proof fn lemma_latest_push_new(w: Seq<MoveEvent>, e: MoveEvent)
    requires
        forall|j: int| 0 <= j < latest_moves(w).len() ==> latest_moves(w)[j].0 != e.broker_id,
    ensures
        latest_moves(w.push(e)) == latest_moves(w).push((e.broker_id, e.direction)),
{
    let fs = first_seen(brokers_of(w));
    lemma_first_seen_push(w, e);
    assert(!fs.contains(e.broker_id)) by {
        if fs.contains(e.broker_id) {
            let j = choose|j: int| 0 <= j < fs.len() && fs[j] == e.broker_id;
            assert(latest_moves(w)[j].0 == e.broker_id);
        }
    }
    assert forall|j: int| 0 <= j < fs.push(e.broker_id).len() implies last_direction(w.push(e), fs.push(e.broker_id)[j]) == if j == fs.len() {
        Some(e.direction)
    } else {
        last_direction(w, fs[j])
    } by {
        lemma_last_direction_push(w, e, fs.push(e.broker_id)[j]);
        if j < fs.len() {
            assert(fs[j] != e.broker_id);
        }
    }
    assert(latest_moves(w.push(e)) =~= latest_moves(w).push((e.broker_id, e.direction)));
}

/// How many of `moves` go up and how many down.
fn count_moves(moves: &Vec<(BrokerId, MoveDirection)>) -> (r: (usize, usize))
    ensures
        r.0 == count_direction(moves@, MoveDirection::Up),
        r.1 == count_direction(moves@, MoveDirection::Down),
{
    let mut up: usize = 0;
    let mut down: usize = 0;
    let mut j: usize = 0;
    while j < moves.len()
        invariant
            j <= moves@.len(),
            up == count_direction(moves@.take(j as int), MoveDirection::Up),
            down == count_direction(moves@.take(j as int), MoveDirection::Down),
            up + down == j,
        decreases moves@.len() - j,
    {
        proof {
            assert(moves@.take(j as int + 1).drop_last() =~= moves@.take(j as int));
        }
        match moves[j].1 {
            MoveDirection::Up => up = up + 1,
            MoveDirection::Down => down = down + 1,
        }
        j = j + 1;
    }
    proof {
        assert(moves@.take(moves@.len() as int) =~= moves@);
    }
    (up, down)
}

} // verus!