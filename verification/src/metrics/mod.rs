//! Pipeline metrics.

pub mod burst;
pub mod fingerprint;
pub mod hypothesis;
pub mod latency;
