//! Ports through which the pipeline stages hand work to one another.

use crate::contracts::types::{BrokerId, ClockReading, Diagnostic, HealthState, LogRecord};
use std::sync::Arc;
use vstd::prelude::*;

verus! {

/// A source of clock readings.
pub trait ClockPort {
    fn sample(&self) -> ClockReading;
}

/// The answer to an offer of work to a bounded queue.
#[derive(Debug, Clone, PartialEq, Eq)]
pub enum SubmitResult<T> {
    Accepted,
    Full(T),
    Closed(T),
}

/// Where health states and diagnostics are reported.
pub trait HealthSink {
    fn update_health(&self, broker_id: BrokerId, health: HealthState);

    fn report_diagnostic(&self, diagnostic: Diagnostic);
}

/// Control over transport connections.
pub trait TransportControl {
    fn close_connection(&self, broker_id: BrokerId, generation: u64, reason: &str);
}

/// The answer of a log sink to an appended record.
#[derive(Debug, Clone, PartialEq, Eq)]
pub enum AppendResult<T> {
    Accepted,
    Full(T),
    Fault(T, String),
}

/// What a durable append reports for the answer `a` of a plain append.
pub open spec fn durable_outcome<T>(a: AppendResult<T>, r: Result<(), String>) -> bool {
    match a {
        AppendResult::Accepted => r is Ok,
        AppendResult::Full(_) => r matches Err(e) && e@ == "Log queue is full"@,
        AppendResult::Fault(_, reason) => r == Err::<(), String>(reason),
    }
}

/// Converts the answer of a plain append into that of a durable one.
pub fn durable_result<T>(a: AppendResult<T>) -> (r: Result<(), String>)
    ensures
        durable_outcome(a, r),
{
    match a {
        AppendResult::Accepted => Ok(()),
        AppendResult::Full(_) => Err(crate::text::string_of("Log queue is full")),
        AppendResult::Fault(_, reason) => Err(reason),
    }
}

/// A sink for log records.
pub trait LogSinkPort {
    fn try_append(&self, record: Arc<LogRecord>) -> AppendResult<Arc<LogRecord>>;

    /// Appends a record at the durable boundary; by default the answer of a
    /// plain append, with a full queue reported as an error.
    fn append_durable(&self, record: Arc<LogRecord>) -> Result<(), String> {
        durable_result(self.try_append(record))
    }

    fn flush(&self) -> Result<(), String>;
}

} // verus!
