//! The run clock.

use crate::contracts::ports::ClockPort;
use crate::contracts::types::{ClockReading, MonoNs, RunId};
use std::time::Instant;
use vstd::prelude::*;

verus! {

#[verifier::external_type_specification]
#[verifier::external_body]
pub struct ExInstant(Instant);

/// Calls `Instant::now`; nothing is stated of the instant.
#[verifier::external_body]
fn instant_now() -> (r: Instant) {
    Instant::now()
}

/// Calls `Instant::elapsed` and reads it in whole nanoseconds, kept to the
/// low 64 bits; nothing is stated of the value, which depends on the time.
#[verifier::external_body]
fn nanos_since(start: &Instant) -> (r: u64) {
    start.elapsed().as_nanos() as u64
}

/// Reads the system clock as nanoseconds since the Unix epoch, kept to 64
/// signed bits; `None` before the epoch. Nothing is stated of the value,
/// which depends on the time.
#[verifier::external_body]
fn unix_time_nanos() -> (r: Option<i64>) {
    std::time::SystemTime::now().duration_since(std::time::UNIX_EPOCH).ok().map(|d| d.as_nanos() as i64)
}

/// A clock of one run: monotonic nanoseconds since the clock was made,
/// and the wall-clock time.
pub struct SystemClock {
    run_id: RunId,
    start_instant: Instant,
}

impl SystemClock {
    /// The run this clock belongs to.
    pub closed spec fn run(&self) -> RunId {
        self.run_id
    }

    /// A clock of run `run_id` starting now.
    pub fn new(run_id: RunId) -> (r: Self)
        ensures
            r.run() == run_id,
    {
        SystemClock { run_id, start_instant: instant_now() }
    }
}

impl ClockPort for SystemClock {
    /// A reading of this run's clock.
    fn sample(&self) -> (r: ClockReading)
        ensures
            r.run_id == self.run(),
    {
        let mono_ns = nanos_since(&self.start_instant);
        let unix_ns = unix_time_nanos();
        ClockReading { run_id: self.run_id, mono_ns: MonoNs(mono_ns), unix_ns }
    }
}

} // verus!
