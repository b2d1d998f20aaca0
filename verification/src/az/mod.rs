//! The authorization core: ACL record codec and decision engine.

pub mod az_lmdb;
pub mod common;
pub mod context;
pub mod dates;
pub mod engine;
pub mod formats;
pub mod laws;
pub mod records;
pub mod stat;
