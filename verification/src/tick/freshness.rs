//! Integer time decisions of the live view: whether a quote is recent
//! enough to show, whether two quotes are close enough to compare, and
//! whether a matched move is recent enough to report.

use vstd::prelude::*;

verus! {

/// Nanoseconds in a millisecond.
pub const NANOS_PER_MS: u64 = 1_000_000;

/// How long a matched move stays on display, in nanoseconds.
pub const MATCH_DISPLAY_NS: u64 = 5_000_000_000;

/// `a - b`, or 0 where `b` is later.
pub open spec fn elapsed(a: u64, b: u64) -> int {
    if a >= b {
        a - b
    } else {
        0
    }
}

/// `ms` milliseconds in nanoseconds, capped at `u64::MAX`.
pub open spec fn ms_to_ns(ms: u64) -> int {
    if ms * 1_000_000 <= u64::MAX {
        ms * 1_000_000
    } else {
        u64::MAX as int
    }
}

/// The distance between two instants.
pub open spec fn distance(a: u64, b: u64) -> int {
    if a >= b {
        a - b
    } else {
        b - a
    }
}

/// `ms` milliseconds in nanoseconds, capped at `u64::MAX`.
pub fn ms_as_ns(ms: u64) -> (r: u64)
    ensures
        r == ms_to_ns(ms),
{
    if ms <= u64::MAX / NANOS_PER_MS {
        assert(ms * 1_000_000 <= u64::MAX) by (nonlinear_arith)
            requires
                ms <= 18_446_744_073_709u64,
        ;
        ms * NANOS_PER_MS
    } else {
        assert(ms * 1_000_000 > u64::MAX) by (nonlinear_arith)
            requires
                ms > 18_446_744_073_709u64,
        ;
        u64::MAX
    }
}

/// A quote received at `rx_ns` is still fresh at `now_ns`: no more than
/// `stale_after_ms` have passed since (a receive time after `now_ns`
/// counts as just received).
pub fn received_within(now_ns: u64, rx_ns: u64, stale_after_ms: u64) -> (r: bool)
    ensures
        r == (elapsed(now_ns, rx_ns) <= ms_to_ns(stale_after_ms)),
{
    now_ns.saturating_sub(rx_ns) <= ms_as_ns(stale_after_ms)
}

/// Two quotes received at `a_ns` and `b_ns` are close enough to compare:
/// no more than the matching window `window_ms` apart.
pub fn within_skew(a_ns: u64, b_ns: u64, window_ms: u64) -> (r: bool)
    ensures
        r == (distance(a_ns, b_ns) <= ms_to_ns(window_ms)),
{
    let d = if a_ns >= b_ns {
        a_ns - b_ns
    } else {
        b_ns - a_ns
    };
    d <= ms_as_ns(window_ms)
}

/// A move matched at `follower_ns` is still worth showing at `now_ns`.
pub fn match_on_display(now_ns: u64, follower_ns: u64) -> (r: bool)
    ensures
        r == (elapsed(now_ns, follower_ns) <= MATCH_DISPLAY_NS),
{
    now_ns.saturating_sub(follower_ns) <= MATCH_DISPLAY_NS
}

} // verus!
