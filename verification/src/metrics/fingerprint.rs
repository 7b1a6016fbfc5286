//! Repricing persistence: whether a broker's lead moves are followed by the
//! other brokers or reverted by the leader itself.

use crate::contracts::models::MoveEvent;
use crate::contracts::types::{BrokerId, MonoNs};
use vstd::prelude::*;

verus! {

/// A lead move still waiting for its outcome. The anchor mid price is held
/// as its IEEE-754 binary64 bit pattern.
#[derive(Debug, Clone, Copy, PartialEq, Eq, Structural)]
pub struct PendingLead {
    pub event: MoveEvent,
    pub created_at: MonoNs,
    pub anchor_mid_bits: u64,
}

/// The abstract state of a repricing tracker.
pub struct RepricingView {
    pub broker_id: BrokerId,
    pub total_leads: u64,
    pub follow_count: u64,
    pub reversion_count: u64,
    pub pending_lead: Option<PendingLead>,
    pub window_ns: u64,
}

/// Counts how often a broker's lead moves were followed by another broker
/// moving the same way, or reverted by the leader moving back, within a
/// window after the lead.
pub struct RepricingPersistenceTracker {
    broker_id: BrokerId,
    total_leads: u64,
    follow_count: u64,
    reversion_count: u64,
    pending_lead: Option<PendingLead>,
    window_ns: u64,
}

impl View for RepricingPersistenceTracker {
    type V = RepricingView;

    closed spec fn view(&self) -> RepricingView {
        RepricingView {
            broker_id: self.broker_id,
            total_leads: self.total_leads,
            follow_count: self.follow_count,
            reversion_count: self.reversion_count,
            pending_lead: self.pending_lead,
            window_ns: self.window_ns,
        }
    }
}

/// The window after a lead, in milliseconds, that `new` uses.
pub const DEFAULT_WINDOW_MS: u64 = 500;

/// Whether the pending lead `p` has expired at `now` under `window_ns`.
pub open spec fn lead_expired(p: PendingLead, now: MonoNs, window_ns: u64) -> bool {
    now.0 > p.created_at.0 && now.0 - p.created_at.0 > window_ns
}

/// The tracker after a move `e` that follows a pending lead: past the
/// window the lead lapses; a move of another broker in the lead's direction
/// counts as a follow, a move of the leader the other way as a reversion.
pub open spec fn after_subsequent(v: RepricingView, e: MoveEvent) -> RepricingView {
    match v.pending_lead {
        None => v,
        Some(p) => if lead_expired(p, e.rx_mono_ns, v.window_ns) {
            RepricingView { pending_lead: None, ..v }
        } else if e.broker_id != v.broker_id {
            if e.direction == p.event.direction {
                RepricingView { follow_count: (v.follow_count + 1) as u64, pending_lead: None, ..v }
            } else {
                v
            }
        } else if e.direction != p.event.direction {
            RepricingView { reversion_count: (v.reversion_count + 1) as u64, pending_lead: None, ..v }
        } else {
            v
        },
    }
}

/// How a later move `e` resolves the tracker's pending lead: a follow is
/// counted exactly when another broker moves in the lead's direction within
/// the window, a reversion exactly when the leader itself moves the other
/// way within the window; either resolves the lead. A move of another
/// broker the other way, or of the leader the same way, within the window
/// changes nothing. The lead count, broker and window never change.
pub proof fn lemma_subsequent_outcomes(v: RepricingView, e: MoveEvent)
    requires
        v.follow_count < u64::MAX,
        v.reversion_count < u64::MAX,
    ensures
        ({
            let w = after_subsequent(v, e);
            let live = v.pending_lead matches Some(p) && !lead_expired(p, e.rx_mono_ns, v.window_ns);
            let same_way = v.pending_lead matches Some(p) && e.direction == p.event.direction;
            &&& w.total_leads == v.total_leads
            &&& w.broker_id == v.broker_id
            &&& w.window_ns == v.window_ns
            &&& (w.follow_count == v.follow_count + 1 <==> live && e.broker_id != v.broker_id && same_way)
            &&& (w.follow_count != v.follow_count + 1 ==> w.follow_count == v.follow_count)
            &&& (w.reversion_count == v.reversion_count + 1 <==> live && e.broker_id == v.broker_id
                && !same_way)
            &&& (w.reversion_count != v.reversion_count + 1 ==> w.reversion_count == v.reversion_count)
            &&& (live && e.broker_id != v.broker_id && !same_way ==> w == v)
            &&& (live && e.broker_id == v.broker_id && same_way ==> w == v)
            &&& (v.pending_lead is Some && !live ==> w.pending_lead is None && w.follow_count
                == v.follow_count && w.reversion_count == v.reversion_count)
            &&& (v.pending_lead is None ==> w == v)
        }),
{
}

/// The larger of the lead count and the number of resolved leads.
pub open spec fn rate_base_of(v: RepricingView) -> int {
    if v.total_leads >= v.follow_count + v.reversion_count {
        v.total_leads as int
    } else {
        v.follow_count + v.reversion_count
    }
}

/// Resolved leads, with the one still waiting, never outnumber the leads
/// counted.
pub open spec fn leads_bounded(v: RepricingView) -> bool {
    v.follow_count + v.reversion_count + (if v.pending_lead is Some { 1int } else { 0int }) <= v.total_leads
}

/// The event hooks keep `leads_bounded`: each lead is resolved at most
/// once, as a follow or as a reversion.
pub proof fn lemma_event_hooks_keep_leads_bounded(v: RepricingView, e: MoveEvent, now: MonoNs)
    requires
        leads_bounded(v),
        v.total_leads < u64::MAX,
    ensures
        leads_bounded(after_subsequent(v, e)),
        leads_bounded(
            if e.broker_id != v.broker_id {
                v
            } else {
                RepricingView {
                    total_leads: (v.total_leads + 1) as u64,
                    pending_lead: Some(PendingLead { event: e, created_at: e.rx_mono_ns, anchor_mid_bits: e.anchor_mid_bits }),
                    ..v
                }
            },
        ),
        leads_bounded(match v.pending_lead {
            Some(p) => if lead_expired(p, now, v.window_ns) {
                RepricingView { pending_lead: None, ..v }
            } else {
                v
            },
            None => v,
        }),
{
}

impl RepricingPersistenceTracker {
    /// A tracker of `broker_id` with the default window.
    pub fn new(broker_id: BrokerId) -> (r: Self)
        ensures
            r@ == (RepricingView {
                broker_id,
                total_leads: 0,
                follow_count: 0,
                reversion_count: 0,
                pending_lead: None,
                window_ns: 500_000_000,
            }),
    {
        RepricingPersistenceTracker::with_window_ms(broker_id, DEFAULT_WINDOW_MS)
    }

    /// A tracker of `broker_id` with a window of `window_ms` milliseconds.
    pub fn with_window_ms(broker_id: BrokerId, window_ms: u64) -> (r: Self)
        requires
            window_ms * 1_000_000 <= u64::MAX,
        ensures
            r@ == (RepricingView {
                broker_id,
                total_leads: 0,
                follow_count: 0,
                reversion_count: 0,
                pending_lead: None,
                window_ns: (window_ms * 1_000_000) as u64,
            }),
    {
        RepricingPersistenceTracker {
            broker_id,
            total_leads: 0,
            follow_count: 0,
            reversion_count: 0,
            pending_lead: None,
            window_ns: window_ms * 1_000_000,
        }
    }

    pub fn broker_id(&self) -> (r: BrokerId)
        ensures
            r == self@.broker_id,
    {
        self.broker_id
    }

    pub fn total_leads(&self) -> (r: u64)
        ensures
            r == self@.total_leads,
    {
        self.total_leads
    }

    pub fn follow_count(&self) -> (r: u64)
        ensures
            r == self@.follow_count,
    {
        self.follow_count
    }

    pub fn reversion_count(&self) -> (r: u64)
        ensures
            r == self@.reversion_count,
    {
        self.reversion_count
    }

    /// The lead still waiting for its outcome.
    pub fn pending_lead(&self) -> (r: Option<PendingLead>)
        ensures
            r == self@.pending_lead,
    {
        self.pending_lead
    }

    /// Counts a lead without waiting for its outcome.
    pub fn record_lead(&mut self)
        requires
            old(self)@.total_leads < u64::MAX,
        ensures
            final(self)@ == (RepricingView { total_leads: (old(self)@.total_leads + 1) as u64, ..old(self)@ }),
    {
        self.total_leads = self.total_leads + 1;
    }

    /// Counts a follow; the lead count is raised to the resolved count
    /// where it fell below it.
    pub fn record_follow(&mut self)
        requires
            old(self)@.follow_count + old(self)@.reversion_count < u64::MAX,
        ensures
            final(self)@ == (RepricingView {
                follow_count: (old(self)@.follow_count + 1) as u64,
                total_leads: if old(self)@.total_leads < old(self)@.follow_count + 1 + old(self)@.reversion_count {
                    (old(self)@.follow_count + 1 + old(self)@.reversion_count) as u64
                } else {
                    old(self)@.total_leads
                },
                ..old(self)@
            }),
    {
        self.follow_count = self.follow_count + 1;
        if self.total_leads < self.follow_count + self.reversion_count {
            self.total_leads = self.follow_count + self.reversion_count;
        }
    }

    /// Counts a reversion; the lead count is raised to the resolved count
    /// where it fell below it.
    pub fn record_reversion(&mut self)
        requires
            old(self)@.follow_count + old(self)@.reversion_count < u64::MAX,
        ensures
            final(self)@ == (RepricingView {
                reversion_count: (old(self)@.reversion_count + 1) as u64,
                total_leads: if old(self)@.total_leads < old(self)@.follow_count + old(self)@.reversion_count + 1 {
                    (old(self)@.follow_count + old(self)@.reversion_count + 1) as u64
                } else {
                    old(self)@.total_leads
                },
                ..old(self)@
            }),
    {
        self.reversion_count = self.reversion_count + 1;
        if self.total_leads < self.follow_count + self.reversion_count {
            self.total_leads = self.follow_count + self.reversion_count;
        }
    }

    /// Counts a lead together with its outcome.
    pub fn record_outcome(&mut self, followed: bool, reverted: bool)
        requires
            old(self)@.total_leads < u64::MAX,
            old(self)@.follow_count < u64::MAX,
            old(self)@.reversion_count < u64::MAX,
        ensures
            final(self)@ == (RepricingView {
                total_leads: (old(self)@.total_leads + 1) as u64,
                follow_count: if followed { (old(self)@.follow_count + 1) as u64 } else { old(self)@.follow_count },
                reversion_count: if reverted { (old(self)@.reversion_count + 1) as u64 } else { old(self)@.reversion_count },
                ..old(self)@
            }),
    {
        self.total_leads = self.total_leads + 1;
        if followed {
            self.follow_count = self.follow_count + 1;
        }
        if reverted {
            self.reversion_count = self.reversion_count + 1;
        }
    }

    /// The count that the follow and reversion rates are taken over: the
    /// lead count, or the resolved count where that is larger. A rate is
    /// its count over this base, and 0 where the base is 0.
    pub fn rate_base(&self) -> (r: u64)
        requires
            self@.follow_count + self@.reversion_count <= u64::MAX,
        ensures
            r == rate_base_of(self@),
    {
        let resolved = self.follow_count + self.reversion_count;
        if self.total_leads >= resolved {
            self.total_leads
        } else {
            resolved
        }
    }

    /// A lead move of this broker: it is counted and waits for its outcome,
    /// replacing any lead still waiting. Moves of other brokers are ignored.
    pub fn on_lead_event(&mut self, event: &MoveEvent)
        requires
            event.broker_id == old(self)@.broker_id ==> old(self)@.total_leads < u64::MAX,
        ensures
            final(self)@ == if event.broker_id != old(self)@.broker_id {
                old(self)@
            } else {
                RepricingView {
                    total_leads: (old(self)@.total_leads + 1) as u64,
                    pending_lead: Some(PendingLead {
                        event: *event,
                        created_at: event.rx_mono_ns,
                        anchor_mid_bits: event.anchor_mid_bits,
                    }),
                    ..old(self)@
                }
            },
    {
        if event.broker_id != self.broker_id {
            return;
        }
        self.pending_lead = None;
        self.total_leads = self.total_leads + 1;
        self.pending_lead = Some(PendingLead {
            event: *event,
            created_at: event.rx_mono_ns,
            anchor_mid_bits: event.anchor_mid_bits,
        });
    }

    /// A later move of any broker, resolving the pending lead as
    /// `after_subsequent` says.
    pub fn on_subsequent_event(&mut self, event: &MoveEvent)
        requires
            old(self)@.follow_count < u64::MAX,
            old(self)@.reversion_count < u64::MAX,
        ensures
            final(self)@ == after_subsequent(old(self)@, *event),
            old(self)@.pending_lead matches Some(p) && event.broker_id != old(self)@.broker_id
                && event.direction != p.event.direction ==> final(self)@.follow_count == old(
                self,
            )@.follow_count,
    {
        proof {
            lemma_subsequent_outcomes(self@, *event);
        }
        let pending = match self.pending_lead {
            Some(p) => p,
            None => return,
        };
        if event.rx_mono_ns.saturating_sub(pending.created_at).0 > self.window_ns {
            self.pending_lead = None;
            return;
        }
        if event.broker_id != self.broker_id {
            if event.direction == pending.event.direction {
                self.follow_count = self.follow_count + 1;
                self.pending_lead = None;
            }
        } else {
            if event.direction != pending.event.direction {
                self.reversion_count = self.reversion_count + 1;
                self.pending_lead = None;
            }
        }
    }

    /// Lets the pending lead lapse once its window has passed at `now_mono`.
    pub fn check_expiration(&mut self, now_mono: MonoNs)
        ensures
            final(self)@ == match old(self)@.pending_lead {
                Some(p) => if lead_expired(p, now_mono, old(self)@.window_ns) {
                    RepricingView { pending_lead: None, ..old(self)@ }
                } else {
                    old(self)@
                },
                None => old(self)@,
            },
    {
        if let Some(pending) = self.pending_lead {
            if now_mono.saturating_sub(pending.created_at).0 > self.window_ns {
                self.pending_lead = None;
            }
        }
    }
}

} // verus!
