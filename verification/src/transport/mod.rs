//! Broker connections: routing and per-frame handling.

pub mod router;
pub mod tcp;
