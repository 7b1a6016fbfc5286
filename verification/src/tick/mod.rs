//! Tick processing: candle slots, UTC normalization, the sequence ledger,
//! the feed merge and the ingress pipeline.

pub mod candle;
pub mod engine;
pub mod feed;
pub mod freshness;
pub mod matcher;
pub mod normalize;
pub mod pipeline;
