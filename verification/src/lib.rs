//! MQTT v5 wire codec, property framework, CONNECT packet assembly and topic matching.

pub mod errors;
pub mod mqttio;
pub mod packet;
pub mod syncqueue;
pub mod topic;
pub mod trie;
