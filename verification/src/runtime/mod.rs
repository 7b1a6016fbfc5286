//! Run-time services.

pub mod coordinator;
pub mod deploy;
