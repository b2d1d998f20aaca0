//! ACL records: the unit of the stored rights format.
//!
//! A record names a grantee (or a filter subject), its access bits, an
//! optional marker, per-tag grant counters, and a deletion flag.  A
//! record set maps grantee ids to records; insertion order is kept so
//! that encoding is deterministic.

use vstd::prelude::*;
use crate::az::common::M_NONE;

verus! {

/// Spec-level image of an ACL record.
pub struct SpecRecord {
    pub id: Seq<char>,
    pub access: u8,
    pub marker: char,
    pub is_deleted: bool,
    pub counters: Seq<(char, u16)>,
}

/// An ACL record: grantee id, access bits, marker, per-tag counters
/// and the deletion flag.
pub struct ACLRecord {
    pub id: String,
    pub access: u8,
    pub marker: char,
    pub is_deleted: bool,
    pub counters: Vec<(char, u16)>,
}

impl View for ACLRecord {
    type V = SpecRecord;

    open spec fn view(&self) -> SpecRecord {
        SpecRecord {
            id: self.id@,
            access: self.access,
            marker: self.marker,
            is_deleted: self.is_deleted,
            counters: self.counters@,
        }
    }
}

/// The views of a sequence of records.
pub open spec fn recs_view(v: Seq<ACLRecord>) -> Seq<SpecRecord> {
    v.map_values(|r: ACLRecord| r@)
}

/// The counter stored under a tag: the value of its first entry.
pub open spec fn spec_counters_get(cs: Seq<(char, u16)>, tag: char) -> Option<u16>
    decreases cs.len(),
{
    if cs.len() == 0 {
        None
    } else if cs[0].0 == tag {
        Some(cs[0].1)
    } else {
        spec_counters_get(cs.drop_first(), tag)
    }
}

/// Storing a counter: the first entry with the tag is replaced, or a
/// new entry is appended.
pub open spec fn spec_counters_insert(cs: Seq<(char, u16)>, tag: char, v: u16) -> Seq<
    (char, u16),
>
    decreases cs.len(),
{
    if cs.len() == 0 {
        seq![(tag, v)]
    } else if cs[0].0 == tag {
        seq![(tag, v)] + cs.drop_first()
    } else {
        seq![cs[0]] + spec_counters_insert(cs.drop_first(), tag, v)
    }
}

/// Two counter maps agree on every tag.
pub open spec fn counters_equiv(a: Seq<(char, u16)>, b: Seq<(char, u16)>) -> bool {
    forall|c: char| spec_counters_get(a, c) == spec_counters_get(b, c)
}

/// Reads the counter stored under a tag.
pub fn counters_get(cs: &Vec<(char, u16)>, tag: char) -> (r: Option<u16>)
    ensures
        r == spec_counters_get(cs@, tag),
{
    let mut i: usize = 0;
    proof {
        assert(cs@.skip(0) =~= cs@);
    }
    while i < cs.len()
        invariant
            0 <= i <= cs@.len(),
            spec_counters_get(cs@, tag) == spec_counters_get(cs@.skip(i as int), tag),
        decreases cs@.len() - i,
    {
        let (c, v) = cs[i];
        proof {
            assert(cs@.skip(i as int)[0] == cs@[i as int]);
            assert(cs@.skip(i as int).drop_first() =~= cs@.skip(i + 1));
        }
        if c == tag {
            return Some(v);
        }
        i = i + 1;
    }
    proof {
        assert(cs@.skip(cs@.len() as int).len() == 0);
    }
    None
}

/// Stores a counter under a tag.
pub fn counters_insert(cs: &mut Vec<(char, u16)>, tag: char, v: u16)
    ensures
        final(cs)@ == spec_counters_insert(old(cs)@, tag, v),
{
    let mut i: usize = 0;
    proof {
        assert(cs@.skip(0) =~= cs@);
        assert((cs@.take(0) + spec_counters_insert(cs@.skip(0), tag, v)) =~= spec_counters_insert(
            cs@,
            tag,
            v,
        ));
    }
    while i < cs.len()
        invariant
            0 <= i <= cs@.len(),
            cs@ == old(cs)@,
            forall|j: int| 0 <= j < i ==> cs@[j].0 != tag,
            spec_counters_insert(old(cs)@, tag, v) =~= cs@.take(i as int) + spec_counters_insert(
                cs@.skip(i as int),
                tag,
                v,
            ),
        decreases cs@.len() - i,
    {
        let (c, _old_v) = cs[i];
        proof {
            assert(cs@.skip(i as int)[0] == cs@[i as int]);
            assert(cs@.skip(i as int).drop_first() =~= cs@.skip(i + 1));
        }
        if c == tag {
            cs.set(i, (tag, v));
            proof {
                assert(old(cs)@.take(i as int) =~= cs@.take(i as int));
                assert(spec_counters_insert(old(cs)@.skip(i as int), tag, v) =~= seq![(tag, v)]
                    + old(cs)@.skip(i + 1));
                assert(cs@ =~= old(cs)@.take(i as int) + (seq![(tag, v)] + old(cs)@.skip(i + 1)));
            }
            return ;
        }
        proof {
            assert((cs@.take(i as int) + (seq![cs@[i as int]] + spec_counters_insert(
                cs@.skip(i + 1),
                tag,
                v,
            ))) =~= cs@.take(i + 1) + spec_counters_insert(cs@.skip(i + 1), tag, v));
        }
        i = i + 1;
    }
    proof {
        assert(cs@.skip(cs@.len() as int).len() == 0);
        assert(spec_counters_insert(cs@.skip(cs@.len() as int), tag, v) =~= seq![(tag, v)]);
        assert(cs@.take(cs@.len() as int) =~= cs@);
        assert((cs@ + seq![(tag, v)]) =~= cs@.push((tag, v)));
    }
    cs.push((tag, v));
}

impl ACLRecord {
    /// A fresh record for a grantee: no access, no marker, not deleted.
    pub fn new(id: &str) -> (r: ACLRecord)
        ensures
            r@.id == id@,
            r@.access == 0u8,
            r@.marker == M_NONE,
            r@.is_deleted == false,
            r@.counters == Seq::<(char, u16)>::empty(),
    {
        ACLRecord {
            id: id.to_owned(),
            access: 0,
            marker: M_NONE,
            is_deleted: false,
            counters: Vec::new(),
        }
    }

    /// A record with given access bits and nothing else.
    pub fn new_with_access(id: &str, access: u8) -> (r: ACLRecord)
        ensures
            r@.id == id@,
            r@.access == access,
            r@.marker == M_NONE,
            r@.is_deleted == false,
            r@.counters == Seq::<(char, u16)>::empty(),
    {
        ACLRecord {
            id: id.to_owned(),
            access,
            marker: M_NONE,
            is_deleted: false,
            counters: Vec::new(),
        }
    }
}

/// Storing a record in a set: the first record with the same id is
/// replaced, or the record is appended.
pub open spec fn spec_set_insert(s: Seq<SpecRecord>, r: SpecRecord) -> Seq<SpecRecord>
    decreases s.len(),
{
    if s.len() == 0 {
        seq![r]
    } else if s[0].id == r.id {
        seq![r] + s.drop_first()
    } else {
        seq![s[0]] + spec_set_insert(s.drop_first(), r)
    }
}

/// Storing a run of records one after the other.
pub open spec fn spec_set_insert_all(s: Seq<SpecRecord>, rs: Seq<SpecRecord>) -> Seq<SpecRecord>
    decreases rs.len(),
{
    if rs.len() == 0 {
        s
    } else {
        spec_set_insert_all(spec_set_insert(s, rs[0]), rs.drop_first())
    }
}

/// The record stored under an id: the first record with that id.
pub open spec fn spec_set_get(s: Seq<SpecRecord>, id: Seq<char>) -> Option<SpecRecord>
    decreases s.len(),
{
    if s.len() == 0 {
        None
    } else if s[0].id == id {
        Some(s[0])
    } else {
        spec_set_get(s.drop_first(), id)
    }
}

/// A set of ACL records keyed by grantee id, in insertion order.
pub struct ACLRecordSet {
    pub records: Vec<ACLRecord>,
}

impl View for ACLRecordSet {
    type V = Seq<SpecRecord>;

    open spec fn view(&self) -> Seq<SpecRecord> {
        recs_view(self.records@)
    }
}

impl ACLRecordSet {
    /// An empty set.
    pub fn new() -> (r: ACLRecordSet)
        ensures
            r@ == Seq::<SpecRecord>::empty(),
    {
        let r = ACLRecordSet { records: Vec::new() };
        proof {
            assert(r@ =~= Seq::<SpecRecord>::empty());
        }
        r
    }

    /// Stores a record, replacing any record with the same id.
    pub fn insert(&mut self, rec: ACLRecord)
        ensures
            final(self)@ == spec_set_insert(old(self)@, rec@),
    {
        let ghost rv = rec@;
        let mut i: usize = 0;
        proof {
            assert(self@.skip(0) =~= self@);
            assert((self@.take(0) + spec_set_insert(self@.skip(0), rv)) =~= spec_set_insert(
                self@,
                rv,
            ));
        }
        while i < self.records.len()
            invariant
                0 <= i <= self.records@.len(),
                self == old(self),
                rec@ == rv,
                forall|j: int| 0 <= j < i ==> self@[j].id != rv.id,
                spec_set_insert(old(self)@, rv) =~= self@.take(i as int) + spec_set_insert(
                    self@.skip(i as int),
                    rv,
                ),
            decreases self.records@.len() - i,
        {
            proof {
                assert(self@.skip(i as int)[0] == self@[i as int]);
                assert(self@.skip(i as int).drop_first() =~= self@.skip(i + 1));
            }
            let same = crate::util::str_eq(self.records[i].id.as_str(), rec.id.as_str());
            if same {
                proof {
                    assert(spec_set_insert(self@.skip(i as int), rv) =~= seq![rv] + self@.skip(
                        i + 1,
                    ));
                }
                let ghost before = self@;
                self.records.set(i, rec);
                proof {
                    assert(self@ =~= before.take(i as int) + (seq![rv] + before.skip(i + 1)));
                    assert(before.take(i as int) =~= old(self)@.take(i as int));
                    assert(before.skip(i + 1) =~= old(self)@.skip(i + 1));
                }
                return ;
            }
            proof {
                assert((self@.take(i as int) + (seq![self@[i as int]] + spec_set_insert(
                    self@.skip(i + 1),
                    rv,
                ))) =~= self@.take(i + 1) + spec_set_insert(self@.skip(i + 1), rv));
            }
            i = i + 1;
        }
        proof {
            let n = self.records@.len() as int;
            assert(self@.skip(n).len() == 0);
            assert(spec_set_insert(self@.skip(n), rv) =~= seq![rv]);
            assert(self@.take(n) =~= self@);
        }
        let ghost before = self@;
        self.records.push(rec);
        proof {
            assert(before == old(self)@);
            assert(i == before.len());
            assert(self@ =~= before.push(rv));
            assert((before + seq![rv]) =~= before.push(rv));
            assert(spec_set_insert(old(self)@, rv) == before.take(i as int) + spec_set_insert(
                before.skip(i as int),
                rv,
            ));
            assert(spec_set_insert(before.skip(i as int), rv) == seq![rv]);
            assert(before.take(i as int) == before);
            assert(self@ == spec_set_insert(old(self)@, rv));
        }
    }

    /// Reads the record stored under an id.
    pub fn get(&self, id: &str) -> (r: Option<&ACLRecord>)
        ensures
            match r {
                Some(rec) => spec_set_get(self@, id@) == Some(rec@),
                None => spec_set_get(self@, id@) is None,
            },
    {
        let mut i: usize = 0;
        proof {
            assert(self@.skip(0) =~= self@);
        }
        while i < self.records.len()
            invariant
                0 <= i <= self.records@.len(),
                spec_set_get(self@, id@) == spec_set_get(self@.skip(i as int), id@),
            decreases self.records@.len() - i,
        {
            proof {
                assert(self@.skip(i as int)[0] == self@[i as int]);
                assert(self@.skip(i as int).drop_first() =~= self@.skip(i + 1));
            }
            let same = crate::util::str_eq(self.records[i].id.as_str(), id);
            if same {
                return Some(&self.records[i]);
            }
            i = i + 1;
        }
        proof {
            assert(self@.skip(self.records@.len() as int).len() == 0);
        }
        None
    }

    /// Number of stored records.
    pub fn len(&self) -> (r: usize)
        ensures
            r == self@.len(),
    {
        self.records.len()
    }
}

} // verus!
