//! TickCompare: multi-broker tick capture, wire protocol, storage format and
//! analysis building blocks, with their behaviour stated as Verus contracts.

pub mod contracts;
pub mod text;
pub mod cli;
pub mod logging;
pub mod protocol;
pub mod storage;
pub mod metrics;
pub mod tick;
pub mod ui;
pub mod transport;
pub mod runtime;
