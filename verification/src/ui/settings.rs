//! The parts of the persisted dashboard state that are checked on load.

use crate::contracts::types::BrokerId;
use vstd::prelude::*;

verus! {

/// The candle timeframes the dashboard offers.
pub open spec fn valid_timeframe(ms: i64) -> bool {
    ms == 1000 || ms == 5000 || ms == 10000 || ms == 60000
}

/// A stored timeframe, replaced by one minute when it is not offered.
pub fn sanitize_timeframe_ms(ms: i64) -> (r: i64)
    ensures
        r == if valid_timeframe(ms) {
            ms
        } else {
            60000
        },
{
    if ms == 1000 || ms == 5000 || ms == 10000 || ms == 60000 {
        ms
    } else {
        60000
    }
}

/// A stored pair, replaced by `(1, 2)` when both sides are one broker.
pub fn sanitize_pair(pair: (BrokerId, BrokerId)) -> (r: (BrokerId, BrokerId))
    ensures
        r == if pair.0 == pair.1 {
            (1u32, 2u32)
        } else {
            pair
        },
{
    if pair.0 == pair.1 {
        (1, 2)
    } else {
        pair
    }
}

proof fn lemma_push_contains(t: Seq<BrokerId>, x: BrokerId, y: BrokerId)
    ensures
        t.push(x).contains(y) <==> (t.contains(y) || x == y),
{
    if t.push(x).contains(y) {
        let k = choose|k: int| 0 <= k < t.push(x).len() && t.push(x)[k] == y;
        if k < t.len() {
            assert(t[k] == y);
        }
    }
    if t.contains(y) {
        let k = choose|k: int| 0 <= k < t.len() && t[k] == y;
        assert(t.push(x)[k] == y);
    }
    if x == y {
        assert(t.push(x)[t.len() as int] == y);
    }
}

/// A stored pair checked against the configured brokers: kept when both
/// are configured and distinct, else replaced by `default_pair`.
pub fn reconcile_pair(pair: (BrokerId, BrokerId), broker_ids: &[BrokerId], default_pair: (BrokerId, BrokerId)) -> (r: (BrokerId, BrokerId))
    ensures
        ({
            let p = if pair.0 == pair.1 {
                (1u32, 2u32)
            } else {
                pair
            };
            r == if broker_ids@.contains(p.0) && broker_ids@.contains(p.1) && p.0 != p.1 {
                p
            } else {
                default_pair
            }
        }),
{
    let p = sanitize_pair(pair);
    let mut has_a = false;
    let mut has_b = false;
    let mut i: usize = 0;
    while i < broker_ids.len()
        invariant
            i <= broker_ids@.len(),
            has_a <==> broker_ids@.take(i as int).contains(p.0),
            has_b <==> broker_ids@.take(i as int).contains(p.1),
        decreases broker_ids@.len() - i,
    {
        let ghost t = broker_ids@.take(i as int);
        assert(broker_ids@.take(i + 1) =~= t.push(broker_ids@[i as int]));
        proof {
            lemma_push_contains(t, broker_ids@[i as int], p.0);
            lemma_push_contains(t, broker_ids@[i as int], p.1);
        }
        if broker_ids[i] == p.0 {
            has_a = true;
        }
        if broker_ids[i] == p.1 {
            has_b = true;
        }
        i = i + 1;
    }
    assert(broker_ids@.take(i as int) =~= broker_ids@);
    if !has_a || !has_b || p.0 == p.1 {
        default_pair
    } else {
        p
    }
}

} // verus!
