//! The general storage interface: three keyed namespaces of raw
//! values, with text reads decoded from UTF-8.

use vstd::prelude::*;
use vstd::string::StringSliceAdditionalSpecFns;
use vstd::utf8::{decode_utf8, valid_utf8};

verus! {

/// Whether a storage may be written through this handle.
#[derive(Eq, PartialEq, Structural, Debug, Clone)]
pub enum StorageMode {
    ReadOnly,
    ReadWrite,
}

/// The three keyed namespaces a storage serves.
#[derive(Eq, PartialEq, Structural, Debug, Clone, Copy)]
pub enum StorageId {
    Individuals,
    Tickets,
    Az,
}

/// The value stored under a key: the first entry that carries it.
pub open spec fn spec_kv_get(entries: Seq<(Seq<char>, Seq<u8>)>, key: Seq<char>) -> Option<
    Seq<u8>,
>
    decreases entries.len(),
{
    if entries.len() == 0 {
        None
    } else if entries[0].0 == key {
        Some(entries[0].1)
    } else {
        spec_kv_get(entries.drop_first(), key)
    }
}

/// Storing a value: the first entry with the key is replaced, or a
/// new entry is appended.
pub open spec fn spec_kv_put(
    entries: Seq<(Seq<char>, Seq<u8>)>,
    key: Seq<char>,
    val: Seq<u8>,
) -> Seq<(Seq<char>, Seq<u8>)>
    decreases entries.len(),
{
    if entries.len() == 0 {
        seq![(key, val)]
    } else if entries[0].0 == key {
        seq![(key, val)] + entries.drop_first()
    } else {
        seq![entries[0]] + spec_kv_put(entries.drop_first(), key, val)
    }
}

/// Removing a key: the first entry with it disappears.
pub open spec fn spec_kv_remove(entries: Seq<(Seq<char>, Seq<u8>)>, key: Seq<char>) -> Seq<
    (Seq<char>, Seq<u8>),
>
    decreases entries.len(),
{
    if entries.len() == 0 {
        entries
    } else if entries[0].0 == key {
        entries.drop_first()
    } else {
        seq![entries[0]] + spec_kv_remove(entries.drop_first(), key)
    }
}

/// Read-write access to the three storage namespaces.  Every method
/// names which namespace it touches; the others stay as they are.
pub trait Storage {
    /// The entries one namespace presently holds, keys and values as
    /// their character and byte sequences.
    spec fn entries(&self, storage: StorageId) -> Seq<(Seq<char>, Seq<u8>)>;

    /// Reads a key as text: the stored bytes decoded from UTF-8, or
    /// nothing when the key is absent or not UTF-8.
    fn get_v(&mut self, storage: StorageId, key: &str) -> (r: Option<String>)
        ensures
            forall|s: StorageId| final(self).entries(s) == old(self).entries(s),
            match spec_kv_get(old(self).entries(storage), key@) {
                Some(b) => if valid_utf8(b) {
                    r matches Some(v) && v@ == decode_utf8(b)
                } else {
                    r is None
                },
                None => r is None,
            },
    ;

    /// Reads a key as raw bytes; an absent key reads as empty.
    fn get_raw(&mut self, storage: StorageId, key: &str) -> (r: Vec<u8>)
        ensures
            forall|s: StorageId| final(self).entries(s) == old(self).entries(s),
            match spec_kv_get(old(self).entries(storage), key@) {
                Some(b) => r@ == b,
                None => r@ == Seq::<u8>::empty(),
            },
    ;

    /// Stores text under a key.
    fn put_kv(&mut self, storage: StorageId, key: &str, val: &str) -> (r: bool)
        ensures
            r == true,
            forall|s: StorageId|
                s != storage ==> final(self).entries(s) == old(self).entries(s),
            final(self).entries(storage) == spec_kv_put(
                old(self).entries(storage),
                key@,
                val.spec_bytes(),
            ),
    ;

    /// Stores raw bytes under a key.
    fn put_kv_raw(&mut self, storage: StorageId, key: &str, val: Vec<u8>) -> (r: bool)
        ensures
            r == true,
            forall|s: StorageId|
                s != storage ==> final(self).entries(s) == old(self).entries(s),
            final(self).entries(storage) == spec_kv_put(old(self).entries(storage), key@, val@),
    ;

    /// Removes a key; true when something was stored under it.
    fn remove(&mut self, storage: StorageId, key: &str) -> (r: bool)
        ensures
            forall|s: StorageId|
                s != storage ==> final(self).entries(s) == old(self).entries(s),
            final(self).entries(storage) == spec_kv_remove(old(self).entries(storage), key@),
            r == (spec_kv_get(old(self).entries(storage), key@) is Some),
    ;

    /// Number of stored entries of one namespace.
    fn count(&mut self, storage: StorageId) -> (r: usize)
        ensures
            forall|s: StorageId| final(self).entries(s) == old(self).entries(s),
            r == old(self).entries(storage).len(),
    ;
}

} // verus!
