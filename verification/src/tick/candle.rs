//! Candles of fixed, period-aligned time slots, per period and broker.
//!
//! Prices are IEEE-754 binary64 bit patterns. The book only takes prices
//! that are neither negative nor NaN, and for those the order of the numbers
//! is the order of their bit patterns, so the high and the low are the
//! largest and the smallest pattern.

use crate::contracts::config::{f64_is_nan, f64_le_zero, is_nan_bits, le_zero_bits, SlotRetention};
use crate::contracts::models::{CandleSlot, CandleView, Ohlc, SlotCoverage, SlotState};
use crate::contracts::types::{BrokerId, NormalizedTick, Sequence, UtcMs};
use std::collections::HashMap;
use vstd::prelude::*;

verus! {

broadcast use vstd::std_specs::hash::group_hash_axioms;

/// The start of the slot of length `period_ms` holding the instant
/// `utc_ms`: the instant rounded down (by Euclidean division) to a
/// multiple of the period.
pub fn calculate_slot_start(utc_ms: UtcMs, period_ms: i64) -> (r: UtcMs)
    requires
        period_ms != 0,
        i64::MIN <= utc_ms.0 as int / period_ms as int <= i64::MAX,
        i64::MIN <= (utc_ms.0 as int / period_ms as int) * period_ms <= i64::MAX,
    ensures
        r.0 == (utc_ms.0 as int / period_ms as int) * period_ms,
{
    let q = match utc_ms.0.checked_div_euclid(period_ms) {
        Some(q) => q,
        None => 0,
    };
    UtcMs(q * period_ms)
}

// ---------------------------------------------------------------------
// Key/value sequences read as maps
// ---------------------------------------------------------------------

/// The map that the key/value pairs of `s` describe.
pub open spec fn pairs_map<K, V>(s: Seq<(K, V)>) -> Map<K, V>
    decreases s.len(),
{
    if s.len() == 0 {
        Map::empty()
    } else {
        pairs_map(s.drop_last()).insert(s.last().0, s.last().1)
    }
}

/// No key occurs twice in `s`.
pub open spec fn keys_distinct<K, V>(s: Seq<(K, V)>) -> bool
    decreases s.len(),
{
    s.len() == 0 || (keys_distinct(s.drop_last()) && !pairs_map(s.drop_last()).contains_key(s.last().0))
}

proof fn lemma_pairs_has<K, V>(s: Seq<(K, V)>)
    ensures
        forall|i: int| 0 <= i < s.len() ==> pairs_map(s).contains_key(#[trigger] s[i].0),
        forall|k: K| pairs_map(s).contains_key(k) ==> exists|i: int| 0 <= i < s.len() && s[i].0 == k,
    decreases s.len(),
{
    if s.len() > 0 {
        let d = s.drop_last();
        lemma_pairs_has(d);
        assert forall|i: int| 0 <= i < s.len() implies pairs_map(s).contains_key(#[trigger] s[i].0) by {
            if i < s.len() - 1 {
                assert(d[i] == s[i]);
            }
        }
        assert forall|k: K| pairs_map(s).contains_key(k) implies exists|i: int| 0 <= i < s.len() && s[i].0 == k by {
            if k != s.last().0 {
                assert(pairs_map(d).contains_key(k));
                let i = choose|i: int| 0 <= i < d.len() && d[i].0 == k;
                assert(s[i] == d[i]);
            } else {
                assert(s[s.len() - 1].0 == k);
            }
        }
    }
}

proof fn lemma_pairs_lookup<K, V>(s: Seq<(K, V)>, i: int)
    requires
        keys_distinct(s),
        0 <= i < s.len(),
    ensures
        pairs_map(s).contains_key(s[i].0),
        pairs_map(s)[s[i].0] == s[i].1,
    decreases s.len(),
{
    if i < s.len() - 1 {
        let d = s.drop_last();
        lemma_pairs_lookup(d, i);
        assert(d[i] == s[i]);
    }
}

proof fn lemma_pairs_update<K, V>(s: Seq<(K, V)>, i: int, v: V)
    requires
        keys_distinct(s),
        0 <= i < s.len(),
    ensures
        keys_distinct(s.update(i, (s[i].0, v))),
        pairs_map(s.update(i, (s[i].0, v))) == pairs_map(s).insert(s[i].0, v),
    decreases s.len(),
{
    let t = s.update(i, (s[i].0, v));
    let d = s.drop_last();
    if i == s.len() - 1 {
        assert(t.drop_last() =~= d);
        assert(pairs_map(t) =~= pairs_map(s).insert(s[i].0, v));
    } else {
        assert(t.drop_last() =~= d.update(i, (s[i].0, v)));
        assert(d[i] == s[i]);
        lemma_pairs_update(d, i, v);
        lemma_pairs_has(d);
        assert(pairs_map(d).contains_key(d[i].0));
        assert(pairs_map(t.drop_last()).dom() =~= pairs_map(d).dom());
        assert(pairs_map(t) =~= pairs_map(s).insert(s[i].0, v));
    }
}

proof fn lemma_pairs_push<K, V>(s: Seq<(K, V)>, k: K, v: V)
    requires
        keys_distinct(s),
        !pairs_map(s).contains_key(k),
    ensures
        keys_distinct(s.push((k, v))),
        pairs_map(s.push((k, v))) == pairs_map(s).insert(k, v),
{
    assert(s.push((k, v)).drop_last() =~= s);
}

/// Which candle a key names: period, broker and slot start.
pub type SlotKey = (i64, BrokerId, i64);

/// Where the slot key `k` occurs in `s`, if anywhere.
fn find_slot(s: &Vec<(SlotKey, CandleSlot)>, k: SlotKey) -> (r: Option<usize>)
    ensures
        r is Some ==> r->0 < s@.len() && s@[r->0 as int].0 == k,
        r is None ==> !pairs_map(s@).contains_key(k),
{
    let mut i: usize = 0;
    while i < s.len()
        invariant
            i <= s@.len(),
            forall|j: int| 0 <= j < i ==> s@[j].0 != k,
        decreases s@.len() - i,
    {
        let e = s[i].0;
        if e.0 == k.0 && e.1 == k.1 && e.2 == k.2 {
            return Some(i);
        }
        i = i + 1;
    }
    proof {
        lemma_pairs_has(s@);
    }
    None
}

/// Where the (period, broker) key `k` occurs in `s`, if anywhere.
fn find_latest(s: &Vec<((i64, BrokerId), i64)>, k: (i64, BrokerId)) -> (r: Option<usize>)
    ensures
        r is Some ==> r->0 < s@.len() && s@[r->0 as int].0 == k,
        r is None ==> !pairs_map(s@).contains_key(k),
{
    let mut i: usize = 0;
    while i < s.len()
        invariant
            i <= s@.len(),
            forall|j: int| 0 <= j < i ==> s@[j].0 != k,
        decreases s@.len() - i,
    {
        let e = s[i].0;
        if e.0 == k.0 && e.1 == k.1 {
            return Some(i);
        }
        i = i + 1;
    }
    proof {
        lemma_pairs_has(s@);
    }
    None
}

// ---------------------------------------------------------------------
// Candle arithmetic
// ---------------------------------------------------------------------

/// `a * b`, saturating at the bounds of `i64`.
pub open spec fn sat_mul_i64(a: i64, b: i64) -> i64 {
    if i64::MIN <= a * b <= i64::MAX {
        (a * b) as i64
    } else if (a < 0) == (b < 0) {
        i64::MAX
    } else {
        i64::MIN
    }
}

/// `a - b`, saturating at the bounds of `i64`.
pub open spec fn sat_sub_i64(a: i64, b: i64) -> i64 {
    if i64::MIN <= a - b <= i64::MAX {
        (a - b) as i64
    } else if b > 0 {
        i64::MIN
    } else {
        i64::MAX
    }
}

fn saturating_mul_i64(a: i64, b: i64) -> (r: i64)
    ensures
        r == sat_mul_i64(a, b),
{
    match a.checked_mul(b) {
        Some(v) => v,
        None => if (a < 0) == (b < 0) {
            i64::MAX
        } else {
            i64::MIN
        },
    }
}

fn saturating_sub_i64(a: i64, b: i64) -> (r: i64)
    ensures
        r == sat_sub_i64(a, b),
{
    match a.checked_sub(b) {
        Some(v) => v,
        None => if b > 0 {
            i64::MIN
        } else {
            i64::MAX
        },
    }
}

/// The start of the slot of length `p` that holds `utc`.
pub open spec fn slot_start_of(utc: i64, p: i64) -> int {
    (utc as int / p as int) * p
}

/// The slot of length `p` holding `utc`, and its end, are instants that an
/// `i64` holds.
pub open spec fn slot_fits(utc: i64, p: i64) -> bool {
    &&& p > 0
    &&& i64::MIN <= utc as int / p as int <= i64::MAX
    &&& i64::MIN <= slot_start_of(utc, p)
    &&& slot_start_of(utc, p) + p <= i64::MAX
}

/// A quote unfit for candles: a side that is zero, negative or NaN, or an
/// ask below the bid. Where both sides are positive numbers, the order of
/// their bit patterns is that of the numbers.
pub open spec fn quote_invalid(bid_bits: u64, ask_bits: u64) -> bool {
    f64_le_zero(bid_bits) || f64_le_zero(ask_bits) || ask_bits < bid_bits || f64_is_nan(bid_bits) || f64_is_nan(ask_bits)
}

/// Whether the tick key `a` comes before `b`: earlier, or as early with a
/// lower sequence.
pub open spec fn tick_key_lt(a: (UtcMs, Sequence), b: (UtcMs, Sequence)) -> bool {
    a.0.0 < b.0.0 || (a.0.0 == b.0.0 && a.1 < b.1)
}

fn key_lt(a: (UtcMs, Sequence), b: (UtcMs, Sequence)) -> (r: bool)
    ensures
        r == tick_key_lt(a, b),
{
    a.0.0 < b.0.0 || (a.0.0 == b.0.0 && a.1 < b.1)
}

/// The empty slot that a first tick of broker `b` at `start` creates.
pub open spec fn fresh_slot(b: BrokerId, segment_id: u64, p: i64, start: i64, warmup: bool) -> CandleSlot {
    CandleSlot {
        broker_id: b,
        segment_id,
        period_ms: p,
        start_utc_ms: UtcMs(start),
        state: SlotState::Empty,
        ohlc: None,
        tick_count: 0,
        revision: 0,
        coverage: if warmup { SlotCoverage::Partial } else { SlotCoverage::Full },
    }
}

/// The slot `c`, of length `p` starting at `start`, after a tick with key
/// `key` and price `price`: the earliest key sets the open, the latest (the
/// last seen among equal keys) the close; the state is closed where the
/// slot has ended by `now`, else active.
pub open spec fn add_tick(c: CandleSlot, key: (UtcMs, Sequence), price: u64, p: i64, start: i64, now: UtcMs) -> CandleSlot {
    CandleSlot {
        ohlc: Some(
            match c.ohlc {
                Some(o) => Ohlc {
                    open_bits: if tick_key_lt(key, o.open_key) { price } else { o.open_bits },
                    high_bits: if price > o.high_bits { price } else { o.high_bits },
                    low_bits: if price < o.low_bits { price } else { o.low_bits },
                    close_bits: if !tick_key_lt(key, o.close_key) { price } else { o.close_bits },
                    open_key: if tick_key_lt(key, o.open_key) { key } else { o.open_key },
                    close_key: if !tick_key_lt(key, o.close_key) { key } else { o.close_key },
                },
                None => Ohlc {
                    open_bits: price,
                    high_bits: price,
                    low_bits: price,
                    close_bits: price,
                    open_key: key,
                    close_key: key,
                },
            },
        ),
        tick_count: if c.ohlc is Some { (c.tick_count + 1) as u64 } else { 1 },
        revision: (c.revision + 1) as u64,
        state: if start + p <= now.0 { SlotState::Closed } else { SlotState::Active },
        ..c
    }
}

/// `m` without the slots of period `p` and broker `b` that start before
/// `cutoff`.
pub open spec fn drop_old_slots(m: Map<SlotKey, CandleSlot>, p: i64, b: BrokerId, cutoff: i64) -> Map<SlotKey, CandleSlot> {
    Map::new(|k: SlotKey| m.contains_key(k) && !(k.0 == p && k.1 == b && k.2 < cutoff), |k: SlotKey| m[k])
}

/// What a tick does to the slots and latest slot starts of the period `p`,
/// keeping `kept` slots: it updates (or creates) its slot, raises the
/// latest slot start of its broker to that slot, and drops the broker's
/// slots that start more than `kept - 1` periods before the latest.
pub open spec fn period_step(
    m: Map<SlotKey, CandleSlot>,
    lm: Map<(i64, BrokerId), i64>,
    p: i64,
    kept: usize,
    tick: NormalizedTick,
    price: u64,
    now: UtcMs,
) -> (Map<SlotKey, CandleSlot>, Map<(i64, BrokerId), i64>) {
    let b = tick.observed.tick_id.broker_id;
    let start = slot_start_of(tick.utc_ms.0, p) as i64;
    let key = (tick.utc_ms, tick.observed.tick_id.sequence);
    let c = if m.contains_key((p, b, start)) {
        m[(p, b, start)]
    } else {
        fresh_slot(b, tick.observed.segment_id, p, start, tick.observed.is_warmup)
    };
    let latest = if lm.contains_key((p, b)) && lm[(p, b)] >= start { lm[(p, b)] } else { start };
    let cutoff = sat_sub_i64(latest, sat_mul_i64(p, (kept - 1) as i64));
    (
        drop_old_slots(m.insert((p, b, start), add_tick(c, key, price, p, start, now)), p, b, cutoff),
        lm.insert((p, b), latest),
    )
}

/// What a tick does to the book, period after period.
pub open spec fn periods_step(
    m: Map<SlotKey, CandleSlot>,
    lm: Map<(i64, BrokerId), i64>,
    periods: Seq<(i64, usize)>,
    tick: NormalizedTick,
    price: u64,
    now: UtcMs,
) -> (Map<SlotKey, CandleSlot>, Map<(i64, BrokerId), i64>)
    decreases periods.len(),
{
    if periods.len() == 0 {
        (m, lm)
    } else {
        let prev = periods_step(m, lm, periods.drop_last(), tick, price, now);
        period_step(prev.0, prev.1, periods.last().0, periods.last().1, tick, price, now)
    }
}

/// The slot `c` with its state closed where it is active and has ended by
/// `now`.
pub open spec fn close_if_ended(c: CandleSlot, now: UtcMs) -> CandleSlot {
    if c.state == SlotState::Active && c.start_utc_ms.0 + c.period_ms <= now.0 {
        CandleSlot { state: SlotState::Closed, ..c }
    } else {
        c
    }
}

/// Whether the slot of length `p` holding `utc`, and its end, are instants.
pub fn slot_fits_exec(utc: i64, p: i64) -> (r: bool)
    ensures
        r == slot_fits(utc, p),
{
    if p <= 0 {
        return false;
    }
    let q = match utc.checked_div_euclid(p) {
        Some(q) => q,
        None => {
            return false;
        },
    };
    let start = match q.checked_mul(p) {
        Some(s) => s,
        None => {
            return false;
        },
    };
    match start.checked_add(p) {
        Some(_) => true,
        None => false,
    }
}

// ---------------------------------------------------------------------
// Retentions
// ---------------------------------------------------------------------

/// Where the period `period` occurs in `ps`, or -1.
pub open spec fn period_index(ps: Seq<(i64, usize)>, period: i64) -> int {
    if exists|j: int| 0 <= j < ps.len() && ps[j].0 == period {
        choose|j: int| 0 <= j < ps.len() && ps[j].0 == period
    } else {
        -1
    }
}

/// The periods a book keeps, in the order of their first retention, each
/// with the slot count of its last retention; retentions of a period or
/// slot count that is not positive are ignored.
pub open spec fn retention_periods(rs: Seq<SlotRetention>) -> Seq<(i64, usize)>
    decreases rs.len(),
{
    if rs.len() == 0 {
        Seq::empty()
    } else {
        let ps = retention_periods(rs.drop_last());
        let r = rs.last();
        if r.period_ms > 0 && r.slots > 0 {
            let j = period_index(ps, r.period_ms);
            if j >= 0 {
                ps.update(j, (r.period_ms, r.slots))
            } else {
                ps.push((r.period_ms, r.slots))
            }
        } else {
            ps
        }
    }
}

/// A retention of 1024 slots for each period of `ps`.
pub open spec fn default_retentions_for(ps: Seq<i64>) -> Seq<SlotRetention>
    decreases ps.len(),
{
    if ps.len() == 0 {
        Seq::empty()
    } else {
        default_retentions_for(ps.drop_last()).push(SlotRetention { period_ms: ps.last(), slots: 1024 })
    }
}

/// Positive, distinct periods, each keeping at least one slot.
pub open spec fn periods_ok(ps: Seq<(i64, usize)>) -> bool {
    &&& forall|j: int| 0 <= j < ps.len() ==> (#[trigger] ps[j]).0 > 0 && ps[j].1 >= 1
    &&& forall|i: int, j: int| 0 <= i < j < ps.len() ==> (#[trigger] ps[i]).0 != (#[trigger] ps[j]).0
}

// ---------------------------------------------------------------------
// The book
// ---------------------------------------------------------------------

/// Candles per period and broker, each period keeping a bounded number of
/// recent slots per broker.
pub struct CandleBook {
    supported_periods: Vec<(i64, usize)>,
    slots: Vec<(SlotKey, CandleSlot)>,
    latest: Vec<((i64, BrokerId), i64)>,
}

impl CandleBook {
    /// The periods kept, in order, each with its slot count.
    pub closed spec fn periods(&self) -> Seq<(i64, usize)> {
        self.supported_periods@
    }

    /// Every candle, by period, broker and slot start.
    pub closed spec fn slot_map(&self) -> Map<SlotKey, CandleSlot> {
        pairs_map(self.slots@)
    }

    /// The latest slot start seen, by period and broker.
    pub closed spec fn latest_map(&self) -> Map<(i64, BrokerId), i64> {
        pairs_map(self.latest@)
    }

    /// The periods are positive and distinct; each candle's own period,
    /// broker and start are those of its key, and its end is an instant.
    pub closed spec fn wf(&self) -> bool {
        &&& periods_ok(self.supported_periods@)
        &&& keys_distinct(self.slots@)
        &&& keys_distinct(self.latest@)
        &&& forall|k: SlotKey| #[trigger] self.slot_map().contains_key(k) ==> slot_matches_key(k, self.slot_map()[k])
    }

    /// A book for the periods of `supported_periods`, keeping 1024 slots
    /// of each.
    pub fn new(supported_periods: Vec<i64>) -> (r: Self)
        ensures
            r.wf(),
            r.periods() == retention_periods(default_retentions_for(supported_periods@)),
            r.slot_map() == Map::<SlotKey, CandleSlot>::empty(),
            r.latest_map() == Map::<(i64, BrokerId), i64>::empty(),
    {
        let mut retentions: Vec<SlotRetention> = Vec::new();
        let mut i: usize = 0;
        while i < supported_periods.len()
            invariant
                i <= supported_periods@.len(),
                retentions@ == default_retentions_for(supported_periods@.take(i as int)),
            decreases supported_periods@.len() - i,
        {
            proof {
                assert(supported_periods@.take(i as int + 1).drop_last() =~= supported_periods@.take(i as int));
            }
            retentions.push(SlotRetention { period_ms: supported_periods[i], slots: 1024 });
            i = i + 1;
        }
        proof {
            assert(supported_periods@.take(supported_periods@.len() as int) =~= supported_periods@);
        }
        CandleBook::with_retentions(retentions.as_slice())
    }

    /// A book for the periods of `retentions`, as `retention_periods` says.
    pub fn with_retentions(retentions: &[SlotRetention]) -> (r: Self)
        ensures
            r.wf(),
            r.periods() == retention_periods(retentions@),
            r.slot_map() == Map::<SlotKey, CandleSlot>::empty(),
            r.latest_map() == Map::<(i64, BrokerId), i64>::empty(),
    {
        let mut periods: Vec<(i64, usize)> = Vec::new();
        let mut i: usize = 0;
        while i < retentions.len()
            invariant
                i <= retentions@.len(),
                periods@ == retention_periods(retentions@.take(i as int)),
                periods_ok(periods@),
            decreases retentions@.len() - i,
        {
            let r = &retentions[i];
            proof {
                assert(retentions@.take(i as int + 1).drop_last() =~= retentions@.take(i as int));
            }
            if r.period_ms > 0 && r.slots > 0 {
                let mut j: usize = 0;
                while j < periods.len()
                    invariant
                        j <= periods@.len(),
                        forall|t: int| 0 <= t < j ==> periods@[t].0 != r.period_ms,
                    ensures
                        j <= periods@.len(),
                        forall|t: int| 0 <= t < j ==> periods@[t].0 != r.period_ms,
                        j < periods@.len() ==> periods@[j as int].0 == r.period_ms,
                    decreases periods@.len() - j,
                {
                    if periods[j].0 == r.period_ms {
                        break;
                    }
                    j = j + 1;
                }
                let ghost ps = periods@;
                if j < periods.len() {
                    proof {
                        let c = choose|t: int| 0 <= t < ps.len() && ps[t].0 == r.period_ms;
                        assert(c == j) by {
                            if c != j {
                                if c < j {
                                } else {
                                    assert(ps[j as int].0 != ps[c].0);
                                }
                            }
                        }
                        assert(period_index(ps, r.period_ms) == j);
                    }
                    periods.set(j, (r.period_ms, r.slots));
                    proof {
                        assert forall|a: int, b: int| 0 <= a < b < periods@.len() implies (#[trigger] periods@[a]).0 != (#[trigger] periods@[b]).0 by {
                            assert(ps[a].0 != ps[b].0);
                        }
                    }
                } else {
                    proof {
                        assert(!(exists|t: int| 0 <= t < ps.len() && ps[t].0 == r.period_ms));
                        assert(period_index(ps, r.period_ms) == -1);
                    }
                    periods.push((r.period_ms, r.slots));
                    proof {
                        assert forall|a: int, b: int| 0 <= a < b < periods@.len() implies (#[trigger] periods@[a]).0 != (#[trigger] periods@[b]).0 by {
                            if b < ps.len() {
                                assert(ps[a].0 != ps[b].0);
                            }
                        }
                    }
                }
            }
            i = i + 1;
        }
        proof {
            assert(retentions@.take(retentions@.len() as int) =~= retentions@);
        }
        let slots: Vec<(SlotKey, CandleSlot)> = Vec::new();
        let latest: Vec<((i64, BrokerId), i64)> = Vec::new();
        proof {
            assert(pairs_map(slots@) =~= Map::<SlotKey, CandleSlot>::empty());
            assert(pairs_map(latest@) =~= Map::<(i64, BrokerId), i64>::empty());
        }
        CandleBook { supported_periods: periods, slots, latest }
    }
}

/// The slot pairs of `s` that `drop_old_slots` keeps.
pub open spec fn keep_slot_pairs(s: Seq<(SlotKey, CandleSlot)>, p: i64, b: BrokerId, cutoff: i64) -> Seq<(SlotKey, CandleSlot)>
    decreases s.len(),
{
    if s.len() == 0 {
        Seq::empty()
    } else {
        let r = keep_slot_pairs(s.drop_last(), p, b, cutoff);
        let k = s.last().0;
        if !(k.0 == p && k.1 == b && k.2 < cutoff) {
            r.push(s.last())
        } else {
            r
        }
    }
}

proof fn lemma_keep_slot_pairs(s: Seq<(SlotKey, CandleSlot)>, p: i64, b: BrokerId, cutoff: i64)
    ensures
        pairs_map(keep_slot_pairs(s, p, b, cutoff)) == drop_old_slots(pairs_map(s), p, b, cutoff),
        keys_distinct(s) ==> keys_distinct(keep_slot_pairs(s, p, b, cutoff)),
    decreases s.len(),
{
    if s.len() == 0 {
        assert(drop_old_slots(pairs_map(s), p, b, cutoff) =~= Map::<SlotKey, CandleSlot>::empty());
    } else {
        let d = s.drop_last();
        lemma_keep_slot_pairs(d, p, b, cutoff);
        let r = keep_slot_pairs(d, p, b, cutoff);
        let k = s.last().0;
        if !(k.0 == p && k.1 == b && k.2 < cutoff) {
            assert(r.push(s.last()).drop_last() =~= r);
            assert(pairs_map(r.push(s.last())) =~= drop_old_slots(pairs_map(s), p, b, cutoff));
        } else {
            assert(pairs_map(r) =~= drop_old_slots(pairs_map(s), p, b, cutoff));
        }
    }
}

fn add_tick_exec(c: CandleSlot, key: (UtcMs, Sequence), price: u64, p: i64, start: i64, now: UtcMs) -> (r: CandleSlot)
    requires
        c.ohlc is Some ==> c.tick_count < u64::MAX,
        c.revision < u64::MAX,
        i64::MIN <= start + p <= i64::MAX,
    ensures
        r == add_tick(c, key, price, p, start, now),
{
    let ohlc = match c.ohlc {
        Some(o) => {
            let before_open = key_lt(key, o.open_key);
            let before_close = key_lt(key, o.close_key);
            Ohlc {
                open_bits: if before_open { price } else { o.open_bits },
                high_bits: if price > o.high_bits { price } else { o.high_bits },
                low_bits: if price < o.low_bits { price } else { o.low_bits },
                close_bits: if !before_close { price } else { o.close_bits },
                open_key: if before_open { key } else { o.open_key },
                close_key: if !before_close { key } else { o.close_key },
            }
        },
        None => Ohlc {
            open_bits: price,
            high_bits: price,
            low_bits: price,
            close_bits: price,
            open_key: key,
            close_key: key,
        },
    };
    let tick_count = if c.ohlc.is_some() { c.tick_count + 1 } else { 1 };
    CandleSlot {
        ohlc: Some(ohlc),
        tick_count,
        revision: c.revision + 1,
        state: if start + p <= now.0 { SlotState::Closed } else { SlotState::Active },
        ..c
    }
}

impl CandleBook {
    /// The book's map invariants, without the periods.
    closed spec fn maps_ok(&self) -> bool {
        &&& keys_distinct(self.slots@)
        &&& keys_distinct(self.latest@)
        &&& forall|k: SlotKey| #[trigger] self.slot_map().contains_key(k) ==> slot_matches_key(k, self.slot_map()[k])
    }

    fn apply_period(&mut self, p: i64, kept: usize, tick: &NormalizedTick, price_bits: u64, current_utc_now: UtcMs)
        requires
            old(self).maps_ok(),
            kept >= 1,
            slot_fits(tick.utc_ms.0, p),
            old(self).slot_map().contains_key((p, tick.observed.tick_id.broker_id, slot_start_of(tick.utc_ms.0, p) as i64)) ==> {
                let c = old(self).slot_map()[(p, tick.observed.tick_id.broker_id, slot_start_of(tick.utc_ms.0, p) as i64)];
                c.revision < u64::MAX && c.tick_count < u64::MAX
            },
        ensures
            final(self).maps_ok(),
            final(self).supported_periods@ == old(self).supported_periods@,
            (final(self).slot_map(), final(self).latest_map()) == period_step(
                old(self).slot_map(),
                old(self).latest_map(),
                p,
                kept,
                *tick,
                price_bits,
                current_utc_now,
            ),
    {
        let broker_id = tick.observed.tick_id.broker_id;
        let key = (tick.utc_ms, tick.observed.tick_id.sequence);
        let slot_start = calculate_slot_start(tick.utc_ms, p);
        let start = slot_start.0;
        let skey: SlotKey = (p, broker_id, start);
        let ghost m0 = self.slot_map();
        let ghost l0 = self.latest_map();
        match find_slot(&self.slots, skey) {
            Some(i) => {
                let c = self.slots[i].1;
                proof {
                    lemma_pairs_lookup(self.slots@, i as int);
                }
                let nc = add_tick_exec(c, key, price_bits, p, start, current_utc_now);
                proof {
                    lemma_pairs_update(self.slots@, i as int, nc);
                }
                self.slots.set(i, (skey, nc));
            },
            None => {
                let c = CandleSlot {
                    broker_id,
                    segment_id: tick.observed.segment_id,
                    period_ms: p,
                    start_utc_ms: slot_start,
                    state: SlotState::Empty,
                    ohlc: None,
                    tick_count: 0,
                    revision: 0,
                    coverage: if tick.observed.is_warmup { SlotCoverage::Partial } else { SlotCoverage::Full },
                };
                let nc = add_tick_exec(c, key, price_bits, p, start, current_utc_now);
                proof {
                    lemma_pairs_push(self.slots@, skey, nc);
                }
                self.slots.push((skey, nc));
            },
        }
        let lkey = (p, broker_id);
        let latest_start = match find_latest(&self.latest, lkey) {
            Some(j) => {
                let cur = self.latest[j].1;
                proof {
                    lemma_pairs_lookup(self.latest@, j as int);
                }
                let l = if start > cur { start } else { cur };
                proof {
                    lemma_pairs_update(self.latest@, j as int, l);
                }
                self.latest.set(j, (lkey, l));
                l
            },
            None => {
                proof {
                    lemma_pairs_push(self.latest@, lkey, start);
                }
                self.latest.push((lkey, start));
                start
            },
        };
        let back: i64 = (kept - 1) as i64;
        let cutoff = saturating_sub_i64(latest_start, saturating_mul_i64(p, back));
        let ghost s1 = self.slots@;
        let mut retained: Vec<(SlotKey, CandleSlot)> = Vec::new();
        let mut i: usize = 0;
        while i < self.slots.len()
            invariant
                s1 == self.slots@,
                i <= s1.len(),
                retained@ == keep_slot_pairs(s1.take(i as int), p, broker_id, cutoff),
            decreases s1.len() - i,
        {
            let e = self.slots[i];
            proof {
                assert(s1.take(i as int + 1).drop_last() =~= s1.take(i as int));
            }
            if !(e.0.0 == p && e.0.1 == broker_id && e.0.2 < cutoff) {
                retained.push(e);
            }
            i = i + 1;
        }
        proof {
            assert(s1.take(s1.len() as int) =~= s1);
            lemma_keep_slot_pairs(s1, p, broker_id, cutoff);
        }
        self.slots = retained;
        proof {
            let m = self.slot_map();
            assert forall|k: SlotKey| #[trigger] m.contains_key(k) implies slot_matches_key(k, m[k]) by {
                if k != skey {
                    assert(m0.contains_key(k));
                }
            }
            assert(m =~= period_step(m0, l0, p, kept, *tick, price_bits, current_utc_now).0);
            assert(self.latest_map() =~= period_step(m0, l0, p, kept, *tick, price_bits, current_utc_now).1);
        }
    }

    /// Adds a tick at the price `price_bits` (chosen by the caller's price
    /// mode from this tick's bid and ask) to the slot of every period kept;
    /// a tick whose quote `quote_invalid` rejects changes nothing.
    pub fn on_tick(&mut self, tick: &NormalizedTick, price_bits: u64, current_utc_now: UtcMs)
        requires
            old(self).wf(),
            price_bits >> 63 == 0,
            !f64_is_nan(price_bits),
            forall|j: int| 0 <= j < old(self).periods().len() ==> slot_fits(tick.utc_ms.0, #[trigger] old(self).periods()[j].0),
            forall|k: SlotKey| #[trigger] old(self).slot_map().contains_key(k) ==> old(self).slot_map()[k].revision < u64::MAX
                && old(self).slot_map()[k].tick_count < u64::MAX,
        ensures
            final(self).wf(),
            final(self).periods() == old(self).periods(),
            (final(self).slot_map(), final(self).latest_map()) == if quote_invalid(
                tick.observed.record.bid_bits,
                tick.observed.record.ask_bits,
            ) {
                (old(self).slot_map(), old(self).latest_map())
            } else {
                periods_step(old(self).slot_map(), old(self).latest_map(), old(self).periods(), *tick, price_bits, current_utc_now)
            },
            forall|k: SlotKey| #[trigger] final(self).slot_map().contains_key(k) && !old(self).slot_map().contains_key(k)
                ==> final(self).slot_map()[k].coverage == (if tick.observed.is_warmup {
                    SlotCoverage::Partial
                } else {
                    SlotCoverage::Full
                }),
    {
        proof {
            lemma_tick_coverage(self.slot_map(), self.latest_map(), self.periods(), *tick, price_bits, current_utc_now);
        }
        let bid = tick.observed.record.bid_bits;
        let ask = tick.observed.record.ask_bits;
        if le_zero_bits(bid) || le_zero_bits(ask) || ask < bid || is_nan_bits(bid) || is_nan_bits(ask) {
            return;
        }
        let ghost ps = self.supported_periods@;
        let ghost m0 = self.slot_map();
        let ghost l0 = self.latest_map();
        proof {
            assert(ps.take(0) =~= Seq::<(i64, usize)>::empty());
            assert forall|j: int| 0 <= j < ps.len() implies slot_fits(tick.utc_ms.0, #[trigger] ps[j].0) by {
                assert(slot_fits(tick.utc_ms.0, old(self).periods()[j].0));
            }
        }
        let mut i: usize = 0;
        while i < self.supported_periods.len()
            invariant
                ps == self.supported_periods@,
                periods_ok(ps),
                i <= ps.len(),
                self.maps_ok(),
                forall|j: int| 0 <= j < ps.len() ==> slot_fits(tick.utc_ms.0, #[trigger] ps[j].0),
                (self.slot_map(), self.latest_map()) == periods_step(m0, l0, ps.take(i as int), *tick, price_bits, current_utc_now),
                forall|k: SlotKey| #[trigger] self.slot_map().contains_key(k) ==> (exists|j: int| 0 <= j < i && ps[j].0 == k.0)
                    || (self.slot_map()[k].revision < u64::MAX && self.slot_map()[k].tick_count < u64::MAX),
            decreases ps.len() - i,
        {
            let (p, kept) = self.supported_periods[i];
            let ghost bkey = (p, tick.observed.tick_id.broker_id, slot_start_of(tick.utc_ms.0, p) as i64);
            proof {
                assert(slot_fits(tick.utc_ms.0, ps[i as int].0));
                if self.slot_map().contains_key(bkey) {
                    if exists|j: int| 0 <= j < i && ps[j].0 == bkey.0 {
                        let j = choose|j: int| 0 <= j < i && ps[j].0 == bkey.0;
                        assert(ps[j].0 != ps[i as int].0);
                    }
                }
                assert(ps.take(i as int + 1).drop_last() =~= ps.take(i as int));
            }
            let ghost before = self.slot_map();
            self.apply_period(p, kept, tick, price_bits, current_utc_now);
            proof {
                assert forall|k: SlotKey| #[trigger] self.slot_map().contains_key(k) implies (exists|j: int| 0 <= j < i + 1 && ps[j].0 == k.0)
                    || (self.slot_map()[k].revision < u64::MAX && self.slot_map()[k].tick_count < u64::MAX) by {
                    if k.0 == p {
                        assert(ps[i as int].0 == k.0);
                    } else {
                        assert(before.contains_key(k));
                        assert(self.slot_map()[k] == before[k]);
                        if exists|j: int| 0 <= j < i && ps[j].0 == k.0 {
                            let j = choose|j: int| 0 <= j < i && ps[j].0 == k.0;
                            assert(0 <= j < i + 1 && ps[j].0 == k.0);
                        }
                    }
                }
            }
            i = i + 1;
        }
        proof {
            assert(ps.take(ps.len() as int) =~= ps);
        }
    }
}

proof fn lemma_same_keys(s: Seq<(SlotKey, CandleSlot)>, t: Seq<(SlotKey, CandleSlot)>)
    requires
        s.len() == t.len(),
        forall|j: int| 0 <= j < s.len() ==> (#[trigger] s[j]).0 == t[j].0,
    ensures
        keys_distinct(s) == keys_distinct(t),
        pairs_map(s).dom() == pairs_map(t).dom(),
    decreases s.len(),
{
    if s.len() > 0 {
        let ds = s.drop_last();
        let dt = t.drop_last();
        assert forall|j: int| 0 <= j < ds.len() implies (#[trigger] ds[j]).0 == dt[j].0 by {
            assert(s[j].0 == t[j].0);
        }
        lemma_same_keys(ds, dt);
        assert(s[s.len() - 1].0 == t[t.len() - 1].0);
        assert(pairs_map(s).dom() =~= pairs_map(t).dom());
    }
}

/// The aligned slot starts of a view of `n` slots of length `p` ending
/// with the slot that holds `now`, oldest first.
pub open spec fn view_starts(now: i64, p: i64, n: nat) -> Seq<UtcMs> {
    Seq::new(n, |k: int| UtcMs((slot_start_of(now, p) - (n - 1 - k) * p) as i64))
}

/// Every instant a view of `n` slots of length `p` at `now` computes fits
/// an `i64`.
pub open spec fn view_fits(now: i64, p: i64, n: nat) -> bool {
    &&& p != 0
    &&& n <= i64::MAX
    &&& i64::MIN <= now as int / p as int <= i64::MAX
    &&& i64::MIN <= slot_start_of(now, p) <= i64::MAX
    &&& forall|i: int| 0 <= i < n ==> i64::MIN <= #[trigger] (i * p) <= i64::MAX
        && i64::MIN <= slot_start_of(now, p) - i * p <= i64::MAX
        && i64::MIN <= slot_start_of(now, p) - i * p + p <= i64::MAX
}

/// Whether a view of `n` slots of length `p` at `now` stays within the
/// instants an `i64` holds, as `view_fits` says.
pub fn view_fits_exec(now: i64, p: i64, n: usize) -> (r: bool)
    ensures
        r == view_fits(now, p, n as nat),
{
    if p == 0 || n as u128 > i64::MAX as u128 {
        return false;
    }
    let q = match now.checked_div_euclid(p) {
        Some(q) => q,
        None => {
            return false;
        },
    };
    let start = match q.checked_mul(p) {
        Some(s) => s,
        None => {
            return false;
        },
    };
    let mut i: usize = 0;
    while i < n
        invariant
            i <= n,
            n <= i64::MAX,
            p != 0,
            q == now as int / p as int,
            start == slot_start_of(now, p),
            forall|k: int| 0 <= k < i ==> i64::MIN <= #[trigger] (k * p) <= i64::MAX
                && i64::MIN <= slot_start_of(now, p) - k * p <= i64::MAX
                && i64::MIN <= slot_start_of(now, p) - k * p + p <= i64::MAX,
        decreases n - i,
    {
        let back = match (i as i64).checked_mul(p) {
            Some(b) => b,
            None => {
                assert(!(i64::MIN <= (i as int) * p <= i64::MAX));
                return false;
            },
        };
        let s = match start.checked_sub(back) {
            Some(s) => s,
            None => {
                assert(i64::MIN <= (i as int) * p <= i64::MAX);
                return false;
            },
        };
        match s.checked_add(p) {
            Some(_) => {},
            None => {
                assert(i64::MIN <= (i as int) * p <= i64::MAX);
                return false;
            },
        }
        assert(i64::MIN <= (i as int) * p <= i64::MAX);
        i = i + 1;
    }
    true
}

/// The candle of broker `b` for the slot of length `p` at `start` as seen
/// at `now`: the kept candle, closed where it is active and has ended; or,
/// where none is kept, an empty placeholder, empty once the slot has ended
/// and active before.
pub open spec fn view_slot(m: Map<SlotKey, CandleSlot>, p: i64, b: BrokerId, start: UtcMs, now: UtcMs) -> CandleSlot {
    if m.contains_key((p, b, start.0)) {
        let c = m[(p, b, start.0)];
        if c.state == SlotState::Active && c.start_utc_ms.0 + p <= now.0 {
            CandleSlot { state: SlotState::Closed, ..c }
        } else {
            c
        }
    } else {
        CandleSlot {
            broker_id: b,
            segment_id: 0,
            period_ms: p,
            start_utc_ms: start,
            state: if start.0 + p <= now.0 { SlotState::Empty } else { SlotState::Active },
            ohlc: None,
            tick_count: 0,
            revision: 0,
            coverage: SlotCoverage::Full,
        }
    }
}

/// The candles of broker `b` for the slots starting at `starts`.
pub open spec fn view_row(m: Map<SlotKey, CandleSlot>, p: i64, b: BrokerId, starts: Seq<UtcMs>, now: UtcMs) -> Seq<CandleSlot> {
    Seq::new(starts.len(), |k: int| view_slot(m, p, b, starts[k], now))
}

impl CandleBook {
    /// Closes every active candle whose slot has ended by `current_utc_now`.
    pub fn advance_utc(&mut self, current_utc_now: UtcMs)
        requires
            old(self).wf(),
        ensures
            final(self).wf(),
            final(self).periods() == old(self).periods(),
            final(self).latest_map() == old(self).latest_map(),
            final(self).slot_map() == Map::new(
                |k: SlotKey| old(self).slot_map().contains_key(k),
                |k: SlotKey| close_if_ended(old(self).slot_map()[k], current_utc_now),
            ),
    {
        let ghost s0 = self.slots@;
        proof {
            assert forall|k: SlotKey| #[trigger] pairs_map(s0).contains_key(k) implies slot_matches_key(k, pairs_map(s0)[k]) by {
                assert(self.slot_map().contains_key(k));
            }
        }
        let mut i: usize = 0;
        while i < self.slots.len()
            invariant
                keys_distinct(s0),
                forall|k: SlotKey| #[trigger] pairs_map(s0).contains_key(k) ==> slot_matches_key(k, pairs_map(s0)[k]),
                self.slots@.len() == s0.len(),
                i <= s0.len(),
                forall|j: int| 0 <= j < s0.len() ==> (#[trigger] self.slots@[j]).0 == s0[j].0,
                forall|j: int| 0 <= j < i ==> (#[trigger] self.slots@[j]).1 == close_if_ended(s0[j].1, current_utc_now),
                forall|j: int| i <= j < s0.len() ==> (#[trigger] self.slots@[j]).1 == s0[j].1,
                self.supported_periods@ == old(self).supported_periods@,
                self.latest@ == old(self).latest@,
            decreases s0.len() - i,
        {
            let e = self.slots[i];
            proof {
                lemma_pairs_lookup(s0, i as int);
                assert(slot_matches_key(s0[i as int].0, s0[i as int].1));
            }
            if e.1.state == SlotState::Active && e.1.start_utc_ms.0 + e.1.period_ms <= current_utc_now.0 {
                self.slots.set(i, (e.0, CandleSlot { state: SlotState::Closed, ..e.1 }));
            }
            i = i + 1;
        }
        proof {
            let s1 = self.slots@;
            lemma_same_keys(s0, s1);
            lemma_pairs_has(s0);
            let m0 = pairs_map(s0);
            let m1 = pairs_map(s1);
            assert forall|k: SlotKey| m1.contains_key(k) implies m1[k] == close_if_ended(m0[k], current_utc_now) by {
                let j = choose|j: int| 0 <= j < s0.len() && s0[j].0 == k;
                lemma_pairs_lookup(s0, j);
                lemma_pairs_lookup(s1, j);
                assert(s1[j].0 == k);
            }
            assert forall|k: SlotKey| #[trigger] m1.contains_key(k) implies slot_matches_key(k, m1[k]) by {
                assert(m0.contains_key(k));
            }
            assert(m1 =~= Map::new(
                |k: SlotKey| m0.contains_key(k),
                |k: SlotKey| close_if_ended(m0[k], current_utc_now),
            ));
        }
    }

    /// The candles of the brokers `broker_ids` for the `num_slots` slots of
    /// length `period_ms` ending with the slot that holds `current_utc_now`.
    pub fn get_candle_view(&self, period_ms: i64, broker_ids: &[BrokerId], num_slots: usize, current_utc_now: UtcMs) -> (r: CandleView)
        requires
            self.wf(),
            view_fits(current_utc_now.0, period_ms, num_slots as nat),
        ensures
            r.period_ms == period_ms,
            r.slot_starts@ == view_starts(current_utc_now.0, period_ms, num_slots as nat),
            forall|b: BrokerId| #[trigger] r.slots_by_broker@.contains_key(b) <==> broker_ids@.contains(b),
            forall|b: BrokerId| #[trigger] r.slots_by_broker@.contains_key(b) ==> r.slots_by_broker@[b]@ == view_row(
                self.slot_map(),
                period_ms,
                b,
                view_starts(current_utc_now.0, period_ms, num_slots as nat),
                current_utc_now,
            ),
    {
        let current_slot_start = calculate_slot_start(current_utc_now, period_ms);
        let ghost starts = view_starts(current_utc_now.0, period_ms, num_slots as nat);
        let mut slot_starts: Vec<UtcMs> = Vec::new();
        let mut k: usize = 0;
        while k < num_slots
            invariant
                k <= num_slots,
                view_fits(current_utc_now.0, period_ms, num_slots as nat),
                current_slot_start.0 == slot_start_of(current_utc_now.0, period_ms),
                starts == view_starts(current_utc_now.0, period_ms, num_slots as nat),
                slot_starts@ == starts.take(k as int),
            decreases num_slots - k,
        {
            let back: i64 = (num_slots - 1 - k) as i64;
            proof {
                let i = num_slots - 1 - k;
                assert(back == i);
                assert(i64::MIN <= i * period_ms <= i64::MAX);
                assert(i64::MIN <= slot_start_of(current_utc_now.0, period_ms) - i * period_ms <= i64::MAX);
            }
            let start = current_slot_start.0 - back * period_ms;
            slot_starts.push(UtcMs(start));
            proof {
                assert(slot_starts@ =~= starts.take(k as int + 1));
            }
            k = k + 1;
        }
        proof {
            assert(starts.take(num_slots as int) =~= starts);
        }
        let mut slots_by_broker: HashMap<BrokerId, Vec<CandleSlot>> = HashMap::new();
        let mut bi: usize = 0;
        while bi < broker_ids.len()
            invariant
                bi <= broker_ids@.len(),
                self.wf(),
                view_fits(current_utc_now.0, period_ms, num_slots as nat),
                slot_starts@ == starts,
                starts == view_starts(current_utc_now.0, period_ms, num_slots as nat),
                forall|b: BrokerId| #[trigger] slots_by_broker@.contains_key(b) <==> broker_ids@.take(bi as int).contains(b),
                forall|b: BrokerId| #[trigger] slots_by_broker@.contains_key(b) ==> slots_by_broker@[b]@ == view_row(
                    self.slot_map(),
                    period_ms,
                    b,
                    starts,
                    current_utc_now,
                ),
            decreases broker_ids@.len() - bi,
        {
            let broker_id = broker_ids[bi];
            let mut row: Vec<CandleSlot> = Vec::new();
            let mut k: usize = 0;
            while k < slot_starts.len()
                invariant
                    k <= slot_starts@.len(),
                    self.wf(),
                    view_fits(current_utc_now.0, period_ms, num_slots as nat),
                    slot_starts@ == starts,
                    starts == view_starts(current_utc_now.0, period_ms, num_slots as nat),
                    row@ == view_row(self.slot_map(), period_ms, broker_id, starts, current_utc_now).take(k as int),
                decreases slot_starts@.len() - k,
            {
                let start = slot_starts[k];
                proof {
                    let i = num_slots - 1 - k;
                    assert(0 <= i < num_slots);
                    assert(i64::MIN <= #[trigger] (i * period_ms) <= i64::MAX);
                    assert(i64::MIN <= start.0 + period_ms <= i64::MAX);
                }
                let slot = match find_slot(&self.slots, (period_ms, broker_id, start.0)) {
                    Some(j) => {
                        let c = self.slots[j].1;
                        proof {
                            lemma_pairs_lookup(self.slots@, j as int);
                            assert(slot_matches_key(self.slots@[j as int].0, c));
                        }
                        if c.state == SlotState::Active && c.start_utc_ms.0 + period_ms <= current_utc_now.0 {
                            CandleSlot { state: SlotState::Closed, ..c }
                        } else {
                            c
                        }
                    },
                    None => CandleSlot {
                        broker_id,
                        segment_id: 0,
                        period_ms,
                        start_utc_ms: start,
                        state: if start.0 + period_ms <= current_utc_now.0 { SlotState::Empty } else { SlotState::Active },
                        ohlc: None,
                        tick_count: 0,
                        revision: 0,
                        coverage: SlotCoverage::Full,
                    },
                };
                row.push(slot);
                proof {
                    assert(row@ =~= view_row(self.slot_map(), period_ms, broker_id, starts, current_utc_now).take(k as int + 1));
                }
                k = k + 1;
            }
            proof {
                assert(row@ =~= view_row(self.slot_map(), period_ms, broker_id, starts, current_utc_now));
                assert(broker_ids@.take(bi as int + 1) =~= broker_ids@.take(bi as int).push(broker_id));
                assert forall|b: BrokerId| broker_ids@.take(bi as int + 1).contains(b) <==> (broker_ids@.take(bi as int).contains(b) || b == broker_id) by {
                    let t0 = broker_ids@.take(bi as int);
                    let t1 = broker_ids@.take(bi as int + 1);
                    if t1.contains(b) {
                        let j = choose|j: int| 0 <= j < t1.len() && t1[j] == b;
                        if j < t0.len() {
                            assert(t0[j] == b);
                        }
                    }
                    if t0.contains(b) {
                        let j = choose|j: int| 0 <= j < t0.len() && t0[j] == b;
                        assert(t1[j] == b);
                    }
                    if b == broker_id {
                        assert(t1[bi as int] == b);
                    }
                }
            }
            slots_by_broker.insert(broker_id, row);
            bi = bi + 1;
        }
        proof {
            assert(broker_ids@.take(broker_ids@.len() as int) =~= broker_ids@);
        }
        CandleView { period_ms, slot_starts, slots_by_broker }
    }
}

/// The prices of a candle are ordered: the low is at most the open and the
/// close, which are at most the high.
pub open spec fn ohlc_ordered(c: CandleSlot) -> bool {
    match c.ohlc {
        Some(o) => o.low_bits <= o.open_bits <= o.high_bits && o.low_bits <= o.close_bits <= o.high_bits,
        None => true,
    }
}

/// Adding a tick keeps a candle's prices ordered, and gives it prices.
pub proof fn lemma_add_tick_keeps_order(c: CandleSlot, key: (UtcMs, Sequence), price: u64, p: i64, start: i64, now: UtcMs)
    requires
        ohlc_ordered(c),
    ensures
        ohlc_ordered(add_tick(c, key, price, p, start, now)),
        add_tick(c, key, price, p, start, now).ohlc is Some,
{
}

/// What a tick does to a candle's prices: the high is the larger of the
/// old high and the price, the low the smaller of the old low and the
/// price; the open belongs to the earliest tick key seen and the close to
/// the latest (a later tick with an equal key taking the close), each with
/// its tick's price; the first tick sets all four prices. The tick count
/// grows by one, and the slot is closed exactly when it ended by `now`.
pub proof fn lemma_add_tick_prices(c: CandleSlot, key: (UtcMs, Sequence), price: u64, p: i64, start: i64, now: UtcMs)
    ensures
        ({
            let r = add_tick(c, key, price, p, start, now);
            let o2 = r.ohlc.unwrap();
            &&& r.ohlc is Some
            &&& o2.high_bits >= price && o2.low_bits <= price
            &&& !tick_key_lt(key, o2.open_key)
            &&& !tick_key_lt(o2.close_key, key)
            &&& r.coverage == c.coverage
            &&& r.broker_id == c.broker_id
            &&& r.start_utc_ms == c.start_utc_ms
            &&& (r.state == SlotState::Closed <==> start + p <= now.0)
            &&& match c.ohlc {
                None => {
                    &&& o2.open_bits == price && o2.high_bits == price
                    &&& o2.low_bits == price && o2.close_bits == price
                    &&& o2.open_key == key && o2.close_key == key
                    &&& r.tick_count == 1
                },
                Some(o) => {
                    &&& o2.high_bits >= o.high_bits && (o2.high_bits == o.high_bits || o2.high_bits == price)
                    &&& o2.low_bits <= o.low_bits && (o2.low_bits == o.low_bits || o2.low_bits == price)
                    &&& !tick_key_lt(o.open_key, o2.open_key)
                    &&& !tick_key_lt(o2.close_key, o.close_key)
                    &&& ((o2.open_key == o.open_key && o2.open_bits == o.open_bits) || (o2.open_key == key
                        && o2.open_bits == price))
                    &&& ((o2.close_key == o.close_key && o2.close_bits == o.close_bits) || (o2.close_key
                        == key && o2.close_bits == price))
                    &&& (tick_key_lt(key, o.open_key) ==> o2.open_bits == price)
                    &&& (!tick_key_lt(key, o.close_key) ==> o2.close_bits == price)
                    &&& r.tick_count == c.tick_count + 1 || c.tick_count == u64::MAX
                },
            }
        }),
{
}

/// After a tick, every kept candle of its broker in the period `p` starts
/// no earlier than `kept - 1` periods before the broker's latest slot.
pub proof fn lemma_period_step_retention(
    m: Map<SlotKey, CandleSlot>,
    lm: Map<(i64, BrokerId), i64>,
    p: i64,
    kept: usize,
    tick: NormalizedTick,
    price: u64,
    now: UtcMs,
    k: SlotKey,
)
    requires
        kept >= 1,
        period_step(m, lm, p, kept, tick, price, now).0.contains_key(k),
        k.0 == p,
        k.1 == tick.observed.tick_id.broker_id,
    ensures
        k.2 >= sat_sub_i64(
            period_step(m, lm, p, kept, tick, price, now).1[(p, k.1)],
            sat_mul_i64(p, (kept - 1) as i64),
        ),
{
}

/// Every candle of `m` counts fewer than `bound` ticks and revisions.
pub open spec fn counts_below(m: Map<SlotKey, CandleSlot>, bound: int) -> bool {
    forall|k: SlotKey| #[trigger] m.contains_key(k) ==> m[k].revision < bound && m[k].tick_count < bound
}

/// One tick raises the counts of a candle by at most one.
pub proof fn lemma_periods_step_counts(
    m: Map<SlotKey, CandleSlot>,
    lm: Map<(i64, BrokerId), i64>,
    periods: Seq<(i64, usize)>,
    tick: NormalizedTick,
    price: u64,
    now: UtcMs,
    bound: int,
)
    requires
        counts_below(m, bound),
        bound >= 1,
        periods_ok(periods),
    ensures
        counts_below(periods_step(m, lm, periods, tick, price, now).0, bound + 1),
        forall|k: SlotKey| #[trigger] periods_step(m, lm, periods, tick, price, now).0.contains_key(k)
            && (forall|j: int| 0 <= j < periods.len() ==> periods[j].0 != k.0)
            ==> m.contains_key(k) && periods_step(m, lm, periods, tick, price, now).0[k] == m[k],
    decreases periods.len(),
{
    if periods.len() > 0 {
        let d = periods.drop_last();
        assert(periods_ok(d)) by {
            assert forall|j: int| 0 <= j < d.len() implies (#[trigger] d[j]).0 > 0 && d[j].1 >= 1 by {
                assert(d[j] == periods[j]);
            }
            assert forall|i: int, j: int| 0 <= i < j < d.len() implies (#[trigger] d[i]).0 != (#[trigger] d[j]).0 by {
                assert(d[i] == periods[i] && d[j] == periods[j]);
            }
        }
        lemma_periods_step_counts(m, lm, d, tick, price, now, bound);
        let prev = periods_step(m, lm, d, tick, price, now);
        let p = periods.last().0;
        assert forall|j: int| 0 <= j < d.len() implies d[j].0 != p by {
            assert(d[j] == periods[j]);
            assert(periods[j].0 != periods[periods.len() - 1].0);
        }
        let r = periods_step(m, lm, periods, tick, price, now).0;
        assert forall|k: SlotKey| #[trigger] r.contains_key(k) && (forall|j: int| 0 <= j < periods.len() ==> periods[j].0 != k.0)
            implies m.contains_key(k) && r[k] == m[k] by {
            assert(periods[periods.len() - 1].0 != k.0);
            assert forall|j: int| 0 <= j < d.len() implies d[j].0 != k.0 by {
                assert(d[j] == periods[j]);
            }
        }
    }
}

/// A tick leaves the candle coverage of its book as it was, except on the
/// candles it starts: those are partial when the tick replays warm-up
/// history, and full when it is live. Candles of periods the tick does not
/// visit stay as they were.
pub proof fn lemma_tick_coverage(
    m: Map<SlotKey, CandleSlot>,
    lm: Map<(i64, BrokerId), i64>,
    periods: Seq<(i64, usize)>,
    tick: NormalizedTick,
    price: u64,
    now: UtcMs,
)
    requires
        periods_ok(periods),
    ensures
        forall|k: SlotKey| #[trigger] periods_step(m, lm, periods, tick, price, now).0.contains_key(k)
            ==> periods_step(m, lm, periods, tick, price, now).0[k].coverage == (if m.contains_key(k) {
                m[k].coverage
            } else if tick.observed.is_warmup {
                SlotCoverage::Partial
            } else {
                SlotCoverage::Full
            }),
        forall|k: SlotKey|
            (forall|j: int| 0 <= j < periods.len() ==> periods[j].0 != k.0) ==> (#[trigger] periods_step(
                m,
                lm,
                periods,
                tick,
                price,
                now,
            ).0.contains_key(k) == m.contains_key(k) && (m.contains_key(k) ==> periods_step(
                m,
                lm,
                periods,
                tick,
                price,
                now,
            ).0[k] == m[k])),
    decreases periods.len(),
{
    if periods.len() > 0 {
        let d = periods.drop_last();
        assert(periods_ok(d)) by {
            assert forall|j: int| 0 <= j < d.len() implies (#[trigger] d[j]).0 > 0 && d[j].1 >= 1 by {
                assert(d[j] == periods[j]);
            }
            assert forall|i: int, j: int| 0 <= i < j < d.len() implies (#[trigger] d[i]).0 != (#[trigger] d[j]).0 by {
                assert(d[i] == periods[i] && d[j] == periods[j]);
            }
        }
        lemma_tick_coverage(m, lm, d, tick, price, now);
        let prev = periods_step(m, lm, d, tick, price, now).0;
        let p = periods.last().0;
        assert forall|j: int| 0 <= j < d.len() implies d[j].0 != p by {
            assert(d[j] == periods[j]);
            assert(periods[j].0 != periods[periods.len() - 1].0);
        }
        let b = tick.observed.tick_id.broker_id;
        let start = slot_start_of(tick.utc_ms.0, p) as i64;
        let key0: SlotKey = (p, b, start);
        assert(prev.contains_key(key0) == m.contains_key(key0));
        assert(m.contains_key(key0) ==> prev[key0] == m[key0]);
        let r = periods_step(m, lm, periods, tick, price, now).0;
        assert forall|k: SlotKey| #[trigger] r.contains_key(k) implies r[k].coverage == (if m.contains_key(k) {
            m[k].coverage
        } else if tick.observed.is_warmup {
            SlotCoverage::Partial
        } else {
            SlotCoverage::Full
        }) by {
            if k != key0 {
                assert(prev.contains_key(k));
                assert(r[k] == prev[k]);
            }
        }
        assert forall|k: SlotKey| (forall|j: int| 0 <= j < periods.len() ==> periods[j].0 != k.0) implies (
        #[trigger] r.contains_key(k) == m.contains_key(k) && (m.contains_key(k) ==> r[k] == m[k])) by {
            assert(periods[periods.len() - 1].0 != k.0);
            assert forall|j: int| 0 <= j < d.len() implies d[j].0 != k.0 by {
                assert(d[j] == periods[j]);
            }
            assert(prev.contains_key(k) == m.contains_key(k));
        }
    }
}

impl CandleBook {
    /// The periods kept, in order, each with its slot count.
    pub fn periods_vec(&self) -> (r: Vec<(i64, usize)>)
        ensures
            r@ == self.periods(),
    {
        let mut out: Vec<(i64, usize)> = Vec::new();
        let mut i: usize = 0;
        while i < self.supported_periods.len()
            invariant
                i <= self.supported_periods@.len(),
                out@ == self.supported_periods@.take(i as int),
            decreases self.supported_periods@.len() - i,
        {
            out.push(self.supported_periods[i]);
            proof {
                assert(out@ =~= self.supported_periods@.take(i as int + 1));
            }
            i = i + 1;
        }
        proof {
            assert(self.supported_periods@.take(self.supported_periods@.len() as int) =~= self.supported_periods@);
        }
        out
    }

    /// Whether every candle can take `n` more ticks without its counts
    /// reaching `u64::MAX`.
    pub fn counts_allow(&self, n: u64) -> (r: bool)
        requires
            self.wf(),
        ensures
            r == counts_below(self.slot_map(), u64::MAX - n),
    {
        let bound = u64::MAX - n;
        let mut i: usize = 0;
        while i < self.slots.len()
            invariant
                i <= self.slots@.len(),
                bound == u64::MAX - n,
                keys_distinct(self.slots@),
                forall|j: int| 0 <= j < i ==> (#[trigger] self.slots@[j]).1.revision < bound && self.slots@[j].1.tick_count < bound,
            decreases self.slots@.len() - i,
        {
            let c = self.slots[i].1;
            if c.revision >= bound || c.tick_count >= bound {
                proof {
                    lemma_pairs_lookup(self.slots@, i as int);
                    assert(self.slot_map().contains_key(self.slots@[i as int].0));
                }
                return false;
            }
            i = i + 1;
        }
        proof {
            lemma_pairs_has(self.slots@);
            assert forall|k: SlotKey| #[trigger] self.slot_map().contains_key(k) implies self.slot_map()[k].revision < bound
                && self.slot_map()[k].tick_count < bound by {
                let j = choose|j: int| 0 <= j < self.slots@.len() && self.slots@[j].0 == k;
                lemma_pairs_lookup(self.slots@, j);
            }
        }
        true
    }

    /// The periods of a well-formed book are positive and distinct, each
    /// keeping at least one slot.
    pub proof fn lemma_wf_periods(&self)
        requires
            self.wf(),
        ensures
            periods_ok(self.periods()),
    {
    }
}

/// A candle's own period, broker and start are those of its key `k`, and
/// its end is an instant that an `i64` holds.
pub open spec fn slot_matches_key(k: SlotKey, c: CandleSlot) -> bool {
    &&& k == (c.period_ms, c.broker_id, c.start_utc_ms.0)
    &&& c.period_ms > 0
    &&& c.start_utc_ms.0 + c.period_ms <= i64::MAX
}

} // verus!
