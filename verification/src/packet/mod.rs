//! Packets: what they share, and the CONNECT packet.

pub mod connect;
pub mod packet;
pub mod roundtrip;
