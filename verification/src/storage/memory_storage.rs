//! The in-memory storage: three keyed namespaces held as plain entry
//! lists.  It implements both the general storage interface and the
//! engine's read interface, and its reads never fail.

use vstd::prelude::*;
use vstd::utf8::{decode_utf8, valid_utf8};
use crate::storage::common::{spec_kv_get, spec_kv_put, spec_kv_remove, StorageId};
use crate::az::common::StorageError;
use vstd::string::StrSliceExecFns;

verus! {

/// The views of a list of stored entries.
pub open spec fn kv_view(v: Seq<(String, Vec<u8>)>) -> Seq<(Seq<char>, Seq<u8>)> {
    v.map_values(|p: (String, Vec<u8>)| (p.0@, p.1@))
}

/// Relies on `Vec::clone` for bytes: an equal copy.
#[verifier::external_body]
fn clone_bytes(v: &Vec<u8>) -> (r: Vec<u8>)
    ensures
        r@ == v@,
{
    v.clone()
}

/// Relies on `String::from_utf8`: decodes bytes that are valid UTF-8
/// and refuses the rest.
#[verifier::external_body]
fn bytes_to_string(v: &Vec<u8>) -> (r: Option<String>)
    ensures
        match r {
            Some(s) => valid_utf8(v@) && s@ == decode_utf8(v@),
            None => !valid_utf8(v@),
        },
{
    match String::from_utf8(v.clone()) {
        Ok(s) => Some(s),
        Err(_) => None,
    }
}

/// First position of a key among the entries.
fn kv_find(entries: &Vec<(String, Vec<u8>)>, key: &str) -> (r: Option<usize>)
    ensures
        match r {
            Some(i) => i < entries@.len() && entries@[i as int].0@ == key@ && spec_kv_get(
                kv_view(entries@),
                key@,
            ) == Some(entries@[i as int].1@) && (forall|j: int|
                0 <= j < i ==> kv_view(entries@)[j].0 != key@),
            None => spec_kv_get(kv_view(entries@), key@) is None,
        },
{
    let ghost ev = kv_view(entries@);
    let mut i: usize = 0;
    proof {
        assert(ev.skip(0) =~= ev);
    }
    while i < entries.len()
        invariant
            0 <= i <= ev.len(),
            ev == kv_view(entries@),
            ev.len() == entries@.len(),
            forall|j: int| 0 <= j < i ==> ev[j].0 != key@,
            spec_kv_get(ev, key@) == spec_kv_get(ev.skip(i as int), key@),
        decreases ev.len() - i,
    {
        proof {
            assert(ev.skip(i as int)[0] == ev[i as int]);
            assert(ev.skip(i as int).drop_first() =~= ev.skip(i + 1));
            assert(ev[i as int] == (entries@[i as int].0@, entries@[i as int].1@));
        }
        let same = crate::util::str_eq(entries[i].0.as_str(), key);
        if same {
            return Some(i);
        }
        i = i + 1;
    }
    proof {
        assert(ev.skip(ev.len() as int).len() == 0);
    }
    None
}

/// Stores a value under a key in an entry list.
fn kv_put_exec(entries: &mut Vec<(String, Vec<u8>)>, key: &str, val: Vec<u8>)
    ensures
        kv_view(final(entries)@) == spec_kv_put(kv_view(old(entries)@), key@, val@),
{
    let ghost ev = kv_view(old(entries)@);
    let ghost vv = val@;
    let mut i: usize = 0;
    proof {
        assert(ev.skip(0) =~= ev);
        assert((ev.take(0) + spec_kv_put(ev.skip(0), key@, vv)) =~= spec_kv_put(ev, key@, vv));
    }
    while i < entries.len()
        invariant
            0 <= i <= entries@.len(),
            entries@ == old(entries)@,
            ev == kv_view(entries@),
            ev.len() == entries@.len(),
            vv == val@,
            forall|j: int| 0 <= j < i ==> ev[j].0 != key@,
            spec_kv_put(ev, key@, vv) =~= ev.take(i as int) + spec_kv_put(
                ev.skip(i as int),
                key@,
                vv,
            ),
        decreases entries@.len() - i,
    {
        proof {
            assert(ev.skip(i as int)[0] == ev[i as int]);
            assert(ev.skip(i as int).drop_first() =~= ev.skip(i + 1));
            assert(ev[i as int] == (entries@[i as int].0@, entries@[i as int].1@));
        }
        let same = crate::util::str_eq(entries[i].0.as_str(), key);
        if same {
            proof {
                assert(spec_kv_put(ev.skip(i as int), key@, vv) =~= seq![(key@, vv)] + ev.skip(
                    i + 1,
                ));
            }
            entries.set(i, (key.to_owned(), val));
            proof {
                assert(kv_view(entries@) =~= ev.take(i as int) + (seq![(key@, vv)] + ev.skip(
                    i + 1,
                )));
            }
            return ;
        }
        proof {
            assert((ev.take(i as int) + (seq![ev[i as int]] + spec_kv_put(
                ev.skip(i + 1),
                key@,
                vv,
            ))) =~= ev.take(i + 1) + spec_kv_put(ev.skip(i + 1), key@, vv));
        }
        i = i + 1;
    }
    proof {
        assert(ev.skip(ev.len() as int).len() == 0);
        assert(spec_kv_put(ev.skip(ev.len() as int), key@, vv) =~= seq![(key@, vv)]);
        assert(ev.take(ev.len() as int) =~= ev);
    }
    entries.push((key.to_owned(), val));
    proof {
        assert(kv_view(entries@) =~= ev + seq![(key@, vv)]);
        assert((ev + seq![(key@, vv)]) =~= ev.push((key@, vv)));
        assert(spec_kv_put(ev, key@, vv) =~= ev.push((key@, vv)));
    }
}

/// Removes the first entry with a key from an entry list.
fn kv_remove_exec(entries: &mut Vec<(String, Vec<u8>)>, key: &str) -> (r: bool)
    ensures
        kv_view(final(entries)@) == spec_kv_remove(kv_view(old(entries)@), key@),
        r == (spec_kv_get(kv_view(old(entries)@), key@) is Some),
{
    match kv_find(entries, key) {
        Some(i) => {
            let ghost ev = kv_view(entries@);
            proof {
                lemma_kv_remove_at(ev, key@, i as int);
            }
            entries.remove(i);
            proof {
                assert(kv_view(entries@) =~= ev.take(i as int) + ev.skip(i + 1));
            }
            true
        },
        None => {
            proof {
                lemma_kv_remove_absent(kv_view(entries@), key@);
            }
            false
        },
    }
}

/// Removing a key that the prefix does not hold takes out exactly the
/// entry at its first position.
proof fn lemma_kv_remove_at(ev: Seq<(Seq<char>, Seq<u8>)>, key: Seq<char>, i: int)
    requires
        0 <= i < ev.len(),
        ev[i].0 == key,
        forall|j: int| 0 <= j < i ==> ev[j].0 != key,
    ensures
        spec_kv_remove(ev, key) =~= ev.take(i) + ev.skip(i + 1),
    decreases i,
{
    if i == 0 {
        assert(spec_kv_remove(ev, key) =~= ev.drop_first());
        assert(ev.take(0) + ev.skip(1) =~= ev.drop_first());
    } else {
        let t = ev.drop_first();
        assert(forall|j: int| 0 <= j < i - 1 ==> t[j] == ev[j + 1]);
        lemma_kv_remove_at(t, key, i - 1);
        assert(spec_kv_remove(ev, key) =~= seq![ev[0]] + spec_kv_remove(t, key));
        assert((seq![ev[0]] + (t.take(i - 1) + t.skip(i))) =~= ev.take(i) + ev.skip(i + 1));
    }
}

/// Removing an absent key changes nothing.
proof fn lemma_kv_remove_absent(ev: Seq<(Seq<char>, Seq<u8>)>, key: Seq<char>)
    requires
        spec_kv_get(ev, key) is None,
    ensures
        spec_kv_remove(ev, key) =~= ev,
    decreases ev.len(),
{
    if ev.len() == 0 {
    } else {
        lemma_kv_remove_absent(ev.drop_first(), key);
        assert(spec_kv_remove(ev, key) =~= seq![ev[0]] + ev.drop_first());
        assert((seq![ev[0]] + ev.drop_first()) =~= ev);
    }
}

/// A storage that lives in process memory: three entry lists.
pub struct MemoryStorage {
    pub individuals: Vec<(String, Vec<u8>)>,
    pub tickets: Vec<(String, Vec<u8>)>,
    pub az: Vec<(String, Vec<u8>)>,
}

impl MemoryStorage {
    /// An empty storage.
    pub fn new() -> (r: MemoryStorage)
        ensures
            forall|s: StorageId|
                #[trigger] crate::storage::common::Storage::entries(&r, s) == Seq::<
                    (Seq<char>, Seq<u8>),
                >::empty(),
    {
        let r = MemoryStorage { individuals: Vec::new(), tickets: Vec::new(), az: Vec::new() };
        proof {
            assert(forall|s: StorageId|
                #[trigger] crate::storage::common::Storage::entries(&r, s) =~= Seq::<
                    (Seq<char>, Seq<u8>),
                >::empty());
        }
        r
    }

    /// Stores raw bytes under a key, for seeding a storage by hand.
    pub fn insert_test_data(&mut self, storage: StorageId, key: &str, val: Vec<u8>)
        ensures
            forall|s: StorageId|
                s != storage ==> crate::storage::common::Storage::entries(final(self), s)
                    == crate::storage::common::Storage::entries(old(self), s),
            crate::storage::common::Storage::entries(final(self), storage) == spec_kv_put(
                crate::storage::common::Storage::entries(old(self), storage),
                key@,
                val@,
            ),
    {
        match storage {
            StorageId::Individuals => kv_put_exec(&mut self.individuals, key, val),
            StorageId::Tickets => kv_put_exec(&mut self.tickets, key, val),
            StorageId::Az => kv_put_exec(&mut self.az, key, val),
        }
    }

    /// Reads the raw bytes stored under a key.
    pub fn get_test_data(&self, storage: StorageId, key: &str) -> (r: Option<Vec<u8>>)
        ensures
            match r {
                Some(v) => spec_kv_get(
                    crate::storage::common::Storage::entries(self, storage),
                    key@,
                ) == Some(v@),
                None => spec_kv_get(
                    crate::storage::common::Storage::entries(self, storage),
                    key@,
                ) is None,
            },
    {
        let found = match storage {
            StorageId::Individuals => kv_find(&self.individuals, key),
            StorageId::Tickets => kv_find(&self.tickets, key),
            StorageId::Az => kv_find(&self.az, key),
        };
        match found {
            Some(i) => match storage {
                StorageId::Individuals => Some(clone_bytes(&self.individuals[i].1)),
                StorageId::Tickets => Some(clone_bytes(&self.tickets[i].1)),
                StorageId::Az => Some(clone_bytes(&self.az[i].1)),
            },
            None => None,
        }
    }
}

impl crate::storage::common::Storage for MemoryStorage {
    open spec fn entries(&self, storage: StorageId) -> Seq<(Seq<char>, Seq<u8>)> {
        match storage {
            StorageId::Individuals => kv_view(self.individuals@),
            StorageId::Tickets => kv_view(self.tickets@),
            StorageId::Az => kv_view(self.az@),
        }
    }

    fn get_v(&mut self, storage: StorageId, key: &str) -> (r: Option<String>) {
        let found = match storage {
            StorageId::Individuals => kv_find(&self.individuals, key),
            StorageId::Tickets => kv_find(&self.tickets, key),
            StorageId::Az => kv_find(&self.az, key),
        };
        match found {
            Some(i) => match storage {
                StorageId::Individuals => bytes_to_string(&self.individuals[i].1),
                StorageId::Tickets => bytes_to_string(&self.tickets[i].1),
                StorageId::Az => bytes_to_string(&self.az[i].1),
            },
            None => None,
        }
    }

    fn get_raw(&mut self, storage: StorageId, key: &str) -> (r: Vec<u8>) {
        let found = match storage {
            StorageId::Individuals => kv_find(&self.individuals, key),
            StorageId::Tickets => kv_find(&self.tickets, key),
            StorageId::Az => kv_find(&self.az, key),
        };
        match found {
            Some(i) => match storage {
                StorageId::Individuals => clone_bytes(&self.individuals[i].1),
                StorageId::Tickets => clone_bytes(&self.tickets[i].1),
                StorageId::Az => clone_bytes(&self.az[i].1),
            },
            None => Vec::new(),
        }
    }

    fn put_kv(&mut self, storage: StorageId, key: &str, val: &str) -> (r: bool) {
        let bytes = val.as_bytes_vec();
        match storage {
            StorageId::Individuals => kv_put_exec(&mut self.individuals, key, bytes),
            StorageId::Tickets => kv_put_exec(&mut self.tickets, key, bytes),
            StorageId::Az => kv_put_exec(&mut self.az, key, bytes),
        }
        true
    }

    fn put_kv_raw(&mut self, storage: StorageId, key: &str, val: Vec<u8>) -> (r: bool) {
        match storage {
            StorageId::Individuals => kv_put_exec(&mut self.individuals, key, val),
            StorageId::Tickets => kv_put_exec(&mut self.tickets, key, val),
            StorageId::Az => kv_put_exec(&mut self.az, key, val),
        }
        true
    }

    fn remove(&mut self, storage: StorageId, key: &str) -> (r: bool) {
        match storage {
            StorageId::Individuals => kv_remove_exec(&mut self.individuals, key),
            StorageId::Tickets => kv_remove_exec(&mut self.tickets, key),
            StorageId::Az => kv_remove_exec(&mut self.az, key),
        }
    }

    fn count(&mut self, storage: StorageId) -> (r: usize) {
        match storage {
            StorageId::Individuals => self.individuals.len(),
            StorageId::Tickets => self.tickets.len(),
            StorageId::Az => self.az.len(),
        }
    }
}

impl crate::az::common::Storage for MemoryStorage {
    open spec fn contents(&self) -> Map<Seq<char>, Seq<char>> {
        Map::new(
            |k: Seq<char>|
                match spec_kv_get(kv_view(self.az@), k) {
                    Some(b) => valid_utf8(b),
                    None => false,
                },
            |k: Seq<char>|
                match spec_kv_get(kv_view(self.az@), k) {
                    Some(b) => decode_utf8(b),
                    None => Seq::empty(),
                },
        )
    }

    open spec fn reliable(&self) -> bool {
        true
    }

    fn get(&mut self, key: &str) -> (r: Result<Option<String>, StorageError>) {
        match kv_find(&self.az, key) {
            Some(i) => match bytes_to_string(&self.az[i].1) {
                Some(s) => Ok(Some(s)),
                None => Ok(None),
            },
            None => Ok(None),
        }
    }

    fn fiber_yield(&self) {
    }
}

} // verus!
