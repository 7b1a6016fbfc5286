//! The binary log: its on-disk format and a reader that checks it.

pub mod hex;
pub mod logger;
pub mod reader;
