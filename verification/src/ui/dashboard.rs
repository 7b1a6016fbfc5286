//! The broker pair the dashboard compares, and how the user changes it.

use crate::contracts::types::BrokerId;
use vstd::prelude::*;

verus! {

/// The ordered pairs `(a, b)`, `b` running over `ids` and skipping `a`.
pub open spec fn pairs_with(a: BrokerId, ids: Seq<BrokerId>) -> Seq<(BrokerId, BrokerId)>
    decreases ids.len(),
{
    if ids.len() == 0 {
        Seq::empty()
    } else {
        let r = pairs_with(a, ids.drop_last());
        if ids.last() != a {
            r.push((a, ids.last()))
        } else {
            r
        }
    }
}

/// The ordered pairs of distinct brokers, first broker over `outer`, second
/// over `ids`, in the order of both lists.
pub open spec fn all_pairs(outer: Seq<BrokerId>, ids: Seq<BrokerId>) -> Seq<(BrokerId, BrokerId)>
    decreases outer.len(),
{
    if outer.len() == 0 {
        Seq::empty()
    } else {
        all_pairs(outer.drop_last(), ids) + pairs_with(outer.last(), ids)
    }
}

/// The index of the first `p` in `ps` from `i` on, or 0 if there is none.
pub open spec fn first_index_from(ps: Seq<(BrokerId, BrokerId)>, p: (BrokerId, BrokerId), i: int) -> int
    decreases ps.len() - i,
{
    if i < 0 || i >= ps.len() {
        0
    } else if ps[i] == p {
        i
    } else {
        first_index_from(ps, p, i + 1)
    }
}

/// The pair that cycling from `current` over the pairs of `ids` selects.
pub open spec fn cycled_pair(ids: Seq<BrokerId>, current: (BrokerId, BrokerId), forward: bool) -> Option<(BrokerId, BrokerId)> {
    let ps = all_pairs(ids, ids);
    if ids.len() < 2 || ps.len() == 0 {
        None
    } else {
        let i = first_index_from(ps, current, 0);
        Some(
            if forward {
                ps[(i + 1) % (ps.len() as int)]
            } else {
                ps[(i + ps.len() - 1) % (ps.len() as int)]
            },
        )
    }
}

/// The two brokers compared, A and B.
#[derive(Debug, Clone, Copy, PartialEq, Eq, Structural)]
pub struct PairSelection {
    pub broker_a: BrokerId,
    pub broker_b: BrokerId,
}

/// The selection after asking for the pair `(a, b)`: unchanged for a pair
/// of one broker or the pair already selected.
pub open spec fn select(s: PairSelection, a: BrokerId, b: BrokerId) -> PairSelection {
    if a == b || (a == s.broker_a && b == s.broker_b) {
        s
    } else {
        PairSelection { broker_a: a, broker_b: b }
    }
}

impl PairSelection {
    pub fn new(pair: (BrokerId, BrokerId)) -> (r: Self)
        ensures
            r.broker_a == pair.0 && r.broker_b == pair.1,
    {
        PairSelection { broker_a: pair.0, broker_b: pair.1 }
    }

    pub fn selected_pair(&self) -> (r: (BrokerId, BrokerId))
        ensures
            r == (self.broker_a, self.broker_b),
    {
        (self.broker_a, self.broker_b)
    }

    /// Selects `(a, b)`; reports whether the selection changed.
    pub fn set_selected_pair(&mut self, a: BrokerId, b: BrokerId) -> (changed: bool)
        ensures
            *final(self) == select(*old(self), a, b),
            changed <==> *final(self) != *old(self),
    {
        if a == b || (a == self.broker_a && b == self.broker_b) {
            return false;
        }
        self.broker_a = a;
        self.broker_b = b;
        true
    }

    /// Makes `a` broker A; choosing the current B swaps the two.
    pub fn set_broker_a(&mut self, a: BrokerId) -> (changed: bool)
        ensures
            *final(self) == (if a == old(self).broker_a {
                *old(self)
            } else if a == old(self).broker_b {
                select(*old(self), old(self).broker_b, old(self).broker_a)
            } else {
                select(*old(self), a, old(self).broker_b)
            }),
            changed <==> *final(self) != *old(self),
    {
        if a == self.broker_a {
            return false;
        }
        if a == self.broker_b {
            let (x, y) = (self.broker_b, self.broker_a);
            self.set_selected_pair(x, y)
        } else {
            let y = self.broker_b;
            self.set_selected_pair(a, y)
        }
    }

    /// Makes `b` broker B; choosing the current A swaps the two.
    pub fn set_broker_b(&mut self, b: BrokerId) -> (changed: bool)
        ensures
            *final(self) == (if b == old(self).broker_b {
                *old(self)
            } else if b == old(self).broker_a {
                select(*old(self), old(self).broker_b, old(self).broker_a)
            } else {
                select(*old(self), old(self).broker_a, b)
            }),
            changed <==> *final(self) != *old(self),
    {
        if b == self.broker_b {
            return false;
        }
        if b == self.broker_a {
            let (x, y) = (self.broker_b, self.broker_a);
            self.set_selected_pair(x, y)
        } else {
            let x = self.broker_a;
            self.set_selected_pair(x, b)
        }
    }

    /// Steps to the next (or previous) ordered pair of distinct brokers of
    /// `broker_ids`; from a pair not in the list, steps from the first.
    pub fn cycle_pair(&mut self, broker_ids: &[BrokerId], forward: bool) -> (changed: bool)
        ensures
            *final(self) == (match cycled_pair(broker_ids@, (old(self).broker_a, old(self).broker_b), forward) {
                Some(p) => select(*old(self), p.0, p.1),
                None => *old(self),
            }),
            changed <==> *final(self) != *old(self),
    {
        let ghost ids = broker_ids@;
        if broker_ids.len() < 2 {
            return false;
        }
        let mut pairs: Vec<(BrokerId, BrokerId)> = Vec::new();
        let mut i: usize = 0;
        while i < broker_ids.len()
            invariant
                ids == broker_ids@,
                i <= ids.len(),
                pairs@ == all_pairs(ids.take(i as int), ids),
            decreases ids.len() - i,
        {
            let a = broker_ids[i];
            let ghost before = pairs@;
            let mut j: usize = 0;
            while j < broker_ids.len()
                invariant
                    ids == broker_ids@,
                    i < ids.len(),
                    j <= ids.len(),
                    a == ids[i as int],
                    pairs@ == before + pairs_with(a, ids.take(j as int)),
                decreases ids.len() - j,
            {
                let b = broker_ids[j];
                assert(ids.take(j + 1).drop_last() =~= ids.take(j as int));
                if a != b {
                    pairs.push((a, b));
                    assert(pairs@ =~= before + pairs_with(a, ids.take(j + 1)));
                } else {
                    assert(pairs@ =~= before + pairs_with(a, ids.take(j + 1)));
                }
                j = j + 1;
            }
            assert(ids.take(j as int) =~= ids);
            assert(ids.take(i + 1).drop_last() =~= ids.take(i as int));
            i = i + 1;
        }
        assert(ids.take(i as int) =~= ids);
        let n = pairs.len();
        if n == 0 {
            return false;
        }
        let current = (self.broker_a, self.broker_b);
        let mut k: usize = 0;
        while k < n && !(pairs[k].0 == current.0 && pairs[k].1 == current.1)
            invariant
                n == pairs@.len(),
                k <= n,
                first_index_from(pairs@, current, 0) == first_index_from(pairs@, current, k as int),
            decreases n - k,
        {
            k = k + 1;
        }
        let current_idx = if k < n {
            k
        } else {
            0
        };
        let next_idx = if forward {
            (current_idx + 1) % n
        } else if current_idx == 0 {
            n - 1
        } else {
            current_idx - 1
        };
        proof {
            let ci = current_idx as int;
            let nn = n as int;
            if !forward {
                if ci == 0 {
                    vstd::arithmetic::div_mod::lemma_small_mod((nn - 1) as nat, nn as nat);
                } else {
                    vstd::arithmetic::div_mod::lemma_mod_add_multiples_vanish(ci - 1, nn);
                    vstd::arithmetic::div_mod::lemma_small_mod((ci - 1) as nat, nn as nat);
                    assert(ci + nn - 1 == nn + (ci - 1));
                }
            }
        }
        let (na, nb) = pairs[next_idx];
        self.set_selected_pair(na, nb)
    }
}

} // verus!
