//! Key-value storage: the general read-write interface and the
//! in-memory implementation.

pub mod common;
pub mod memory_storage;
