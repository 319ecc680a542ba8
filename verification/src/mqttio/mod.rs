//! Primitive wire codec and the property framework built on it.

pub mod errors;
pub mod block;
pub mod block_roundtrip;
pub mod io;
pub mod properties;
pub mod roundtrip;
