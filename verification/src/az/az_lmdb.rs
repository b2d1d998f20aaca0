//! The on-disk rights store: a read snapshot over a memory-mapped
//! database.
//!
//! A snapshot is one read transaction: within it, reads repeat, so
//! the snapshot serves a fixed key-value map and implements the
//! engine's storage interface.  Later snapshots may see newer
//! commits; each decision takes its own.

use vstd::prelude::*;
use crate::az::common::{Storage, StorageError};

verus! {

#[verifier::external_type_specification]
#[verifier::external_body]
pub struct ExEnv(heed::Env);

/// One read snapshot of the rights database: an open read transaction
/// and the bound database handle.  The fields are an outside crate's
/// transaction machinery, which stays opaque here; the snapshot is
/// spoken of only through [`lmdb_snapshot_contents`].
#[verifier::external_body]
pub struct LmdbSnapshot {
    txn: heed::RoTxn<'static>,
    db: heed::Database<heed::types::Str, heed::types::Str>,
}

/// The key-value map one snapshot serves.  A read transaction of the
/// underlying database repeats its reads, so the map is fixed for the
/// snapshot's lifetime.
pub uninterp spec fn lmdb_snapshot_contents(s: &LmdbSnapshot) -> Map<Seq<char>, Seq<char>>;

impl LmdbSnapshot {
    /// Relies on heed's `Env::static_read_txn` and `Env::open_database`:
    /// opens one read transaction that owns a handle of the
    /// environment, and binds the unnamed database.  Nothing is
    /// assumed about what the snapshot holds.
    #[verifier::external_body]
    pub fn open(env: &heed::Env) -> (r: Result<LmdbSnapshot, StorageError>) {
        let txn = match env.clone().static_read_txn() {
            Ok(txn) => txn,
            Err(_) => return Err(StorageError),
        };
        let db = match env.open_database::<heed::types::Str, heed::types::Str>(&txn, None) {
            Ok(Some(db)) => db,
            Ok(None) => return Err(StorageError),
            Err(_) => return Err(StorageError),
        };
        Ok(LmdbSnapshot { txn, db })
    }

    /// Relies on heed's `Database::get`: the value stored under a key
    /// in this snapshot, nothing for an absent key, and an error when
    /// the read itself fails.
    #[verifier::external_body]
    fn read(&self, key: &str) -> (r: Result<Option<String>, StorageError>)
        ensures
            r matches Ok(Some(v)) ==> lmdb_snapshot_contents(self).contains_key(key@) && v@
                == lmdb_snapshot_contents(self)[key@],
            r matches Ok(None) ==> !lmdb_snapshot_contents(self).contains_key(key@),
    {
        match self.db.get(&self.txn, key) {
            Ok(Some(v)) => Ok(Some(v.to_string())),
            Ok(None) => Ok(None),
            Err(_) => Err(StorageError),
        }
    }
}

impl Storage for LmdbSnapshot {
    open spec fn contents(&self) -> Map<Seq<char>, Seq<char>> {
        lmdb_snapshot_contents(self)
    }

    open spec fn reliable(&self) -> bool {
        false
    }

    fn get(&mut self, key: &str) -> (r: Result<Option<String>, StorageError>) {
        self.read(key)
    }

    fn fiber_yield(&self) {
    }
}

} // verus!
