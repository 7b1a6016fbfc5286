//! Core contracts: shared types, ports, models, configuration and checksums.

pub mod config;
pub mod crc32c;
pub mod le_bytes;
pub mod models;
pub mod ports;
pub mod types;
