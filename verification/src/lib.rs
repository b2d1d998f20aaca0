//! Authorization core of a knowledge-graph platform.
//!
//! The crate decides, for a `(resource, user, requested access)` query,
//! which of the requested access bits are actually granted.  Rights are
//! stored as text records in a key-value store; the codec in
//! [`az::formats`] reads and writes that format, the engine in
//! [`az::engine`] walks the membership graph and folds permission
//! records into the granted byte.

pub mod az;
pub mod onto;
pub mod search;
pub mod storage;
pub mod v_api;
pub mod util;

use vstd::prelude::*;

verus! {

/// Permit bit: may create.
pub const ACCESS_CAN_CREATE: u8 = 1;

/// Permit bit: may read.
pub const ACCESS_CAN_READ: u8 = 2;

/// Permit bit: may update.
pub const ACCESS_CAN_UPDATE: u8 = 4;

/// Permit bit: may delete.
pub const ACCESS_CAN_DELETE: u8 = 8;

/// Deny bit: must not create.
pub const ACCESS_CANT_CREATE: u8 = 16;

/// Deny bit: must not read.
pub const ACCESS_CANT_READ: u8 = 32;

/// Deny bit: must not update.
pub const ACCESS_CANT_UPDATE: u8 = 64;

/// Deny bit: must not delete.
pub const ACCESS_CANT_DELETE: u8 = 128;

/// All four permit bits.
pub const ACCESS_FULL: u8 = 15;

} // verus!
