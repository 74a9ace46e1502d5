//! Bringing a sharded set of serialized model weights into a table of declared
//! parameter slots, and sizing the key/value cache that may be allocated once
//! the weights are resident.

pub mod capacity;
pub mod config;
pub mod dtype;
pub mod json;
pub mod load;
pub mod manifest;
pub mod names;
pub mod shard;
pub mod table;
