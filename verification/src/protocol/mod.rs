//! Wire protocol: fixed-layout little-endian messages and the streaming
//! frame decoder.

pub mod codec;
pub mod packet;
