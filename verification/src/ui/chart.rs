//! Chart selections: the bottom panel metric and the x-axis mode.

use vstd::prelude::*;

verus! {

/// The metric shown in the bottom chart panel, selectable by number keys.
#[derive(Debug, Clone, Copy, PartialEq, Eq, Hash, Structural)]
pub enum BottomMetric {
    MidDiff,
    BidAskDiff,
    SpreadDiff,
    LeadLag,
    MidDispersion,
    MoveBreadthView,
    QuotePersistence,
}

/// The key number of each metric, 1 to 7 in panel order.
pub open spec fn metric_key(m: BottomMetric) -> u32 {
    match m {
        BottomMetric::MidDiff => 1,
        BottomMetric::BidAskDiff => 2,
        BottomMetric::SpreadDiff => 3,
        BottomMetric::LeadLag => 4,
        BottomMetric::MidDispersion => 5,
        BottomMetric::MoveBreadthView => 6,
        BottomMetric::QuotePersistence => 7,
    }
}

/// The metric of a key number, if any.
pub open spec fn metric_of_key(n: u32) -> Option<BottomMetric> {
    if n == 1 {
        Some(BottomMetric::MidDiff)
    } else if n == 2 {
        Some(BottomMetric::BidAskDiff)
    } else if n == 3 {
        Some(BottomMetric::SpreadDiff)
    } else if n == 4 {
        Some(BottomMetric::LeadLag)
    } else if n == 5 {
        Some(BottomMetric::MidDispersion)
    } else if n == 6 {
        Some(BottomMetric::MoveBreadthView)
    } else if n == 7 {
        Some(BottomMetric::QuotePersistence)
    } else {
        None
    }
}

impl Default for BottomMetric {
    fn default() -> (r: Self)
        ensures
            r == BottomMetric::MidDiff,
    {
        BottomMetric::MidDiff
    }
}

impl BottomMetric {
    /// The key number selecting this metric.
    pub fn key_number(&self) -> (r: u32)
        ensures
            r == metric_key(*self),
    {
        match self {
            BottomMetric::MidDiff => 1,
            BottomMetric::BidAskDiff => 2,
            BottomMetric::SpreadDiff => 3,
            BottomMetric::LeadLag => 4,
            BottomMetric::MidDispersion => 5,
            BottomMetric::MoveBreadthView => 6,
            BottomMetric::QuotePersistence => 7,
        }
    }

    /// The short tab label, its key number first.
    pub fn label(&self) -> (r: &'static str)
        ensures
            r@ == match *self {
                BottomMetric::MidDiff => "1: Mid Diff"@,
                BottomMetric::BidAskDiff => "2: Bid/Ask Diff"@,
                BottomMetric::SpreadDiff => "3: Spread Diff"@,
                BottomMetric::LeadLag => "4: Lead/Lag"@,
                BottomMetric::MidDispersion => "5: Dispersion"@,
                BottomMetric::MoveBreadthView => "6: Breadth"@,
                BottomMetric::QuotePersistence => "7: Persistence"@,
            },
    {
        match self {
            BottomMetric::MidDiff => "1: Mid Diff",
            BottomMetric::BidAskDiff => "2: Bid/Ask Diff",
            BottomMetric::SpreadDiff => "3: Spread Diff",
            BottomMetric::LeadLag => "4: Lead/Lag",
            BottomMetric::MidDispersion => "5: Dispersion",
            BottomMetric::MoveBreadthView => "6: Breadth",
            BottomMetric::QuotePersistence => "7: Persistence",
        }
    }

    /// The panel title.
    pub fn title(&self) -> (r: &'static str)
        ensures
            r@ == match *self {
                BottomMetric::MidDiff => "Mid Price Difference (A - B)"@,
                BottomMetric::BidAskDiff => "Bid & Ask Difference (A - B)"@,
                BottomMetric::SpreadDiff => "Spread Difference (A - B)"@,
                BottomMetric::LeadLag => "Lead / Lag Diagnostics"@,
                BottomMetric::MidDispersion => "Mid Dispersion (Deviation from Broker Median)"@,
                BottomMetric::MoveBreadthView => "Directional Move Breadth"@,
                BottomMetric::QuotePersistence => "Quote Freshness / Age per Broker"@,
            },
    {
        match self {
            BottomMetric::MidDiff => "Mid Price Difference (A - B)",
            BottomMetric::BidAskDiff => "Bid & Ask Difference (A - B)",
            BottomMetric::SpreadDiff => "Spread Difference (A - B)",
            BottomMetric::LeadLag => "Lead / Lag Diagnostics",
            BottomMetric::MidDispersion => "Mid Dispersion (Deviation from Broker Median)",
            BottomMetric::MoveBreadthView => "Directional Move Breadth",
            BottomMetric::QuotePersistence => "Quote Freshness / Age per Broker",
        }
    }

    /// The following metric, the last wrapping to the first.
    pub fn next(&self) -> (r: Self)
        ensures
            metric_key(r) == metric_key(*self) % 7 + 1,
    {
        match self {
            BottomMetric::MidDiff => BottomMetric::BidAskDiff,
            BottomMetric::BidAskDiff => BottomMetric::SpreadDiff,
            BottomMetric::SpreadDiff => BottomMetric::LeadLag,
            BottomMetric::LeadLag => BottomMetric::MidDispersion,
            BottomMetric::MidDispersion => BottomMetric::MoveBreadthView,
            BottomMetric::MoveBreadthView => BottomMetric::QuotePersistence,
            BottomMetric::QuotePersistence => BottomMetric::MidDiff,
        }
    }

    /// The preceding metric, the first wrapping to the last.
    pub fn prev(&self) -> (r: Self)
        ensures
            metric_key(r) == (metric_key(*self) + 5) % 7 + 1,
    {
        match self {
            BottomMetric::MidDiff => BottomMetric::QuotePersistence,
            BottomMetric::BidAskDiff => BottomMetric::MidDiff,
            BottomMetric::SpreadDiff => BottomMetric::BidAskDiff,
            BottomMetric::LeadLag => BottomMetric::SpreadDiff,
            BottomMetric::MidDispersion => BottomMetric::LeadLag,
            BottomMetric::MoveBreadthView => BottomMetric::MidDispersion,
            BottomMetric::QuotePersistence => BottomMetric::MoveBreadthView,
        }
    }

    /// The metric a key number selects.
    pub fn from_key_number(n: u32) -> (r: Option<Self>)
        ensures
            r == metric_of_key(n),
    {
        match n {
            1 => Some(BottomMetric::MidDiff),
            2 => Some(BottomMetric::BidAskDiff),
            3 => Some(BottomMetric::SpreadDiff),
            4 => Some(BottomMetric::LeadLag),
            5 => Some(BottomMetric::MidDispersion),
            6 => Some(BottomMetric::MoveBreadthView),
            7 => Some(BottomMetric::QuotePersistence),
            _ => None,
        }
    }
}

/// Key numbers run from 1 to 7, and a key number and the metric it
/// selects determine each other.
pub proof fn lemma_bottom_metric_cycle(m: BottomMetric)
    ensures
        metric_of_key(metric_key(m)) == Some(m),
        1 <= metric_key(m) <= 7,
        forall|n: u32| #[trigger] metric_of_key(n) matches Some(x) ==> metric_key(x) == n,
{
}

/// What the chart's x axis measures.
#[derive(Debug, Clone, Copy, PartialEq, Eq, Structural)]
pub enum ChartXAxisMode {
    ReceiveTime,
    TickCount,
}

impl Default for ChartXAxisMode {
    fn default() -> (r: Self)
        ensures
            r == ChartXAxisMode::ReceiveTime,
    {
        ChartXAxisMode::ReceiveTime
    }
}

impl ChartXAxisMode {
    /// The axis caption.
    pub fn label(self) -> (r: &'static str)
        ensures
            r@ == match self {
                ChartXAxisMode::ReceiveTime => "Receive time"@,
                ChartXAxisMode::TickCount => "Tick count"@,
            },
    {
        match self {
            ChartXAxisMode::ReceiveTime => "Receive time",
            ChartXAxisMode::TickCount => "Tick count",
        }
    }
}

} // verus!
