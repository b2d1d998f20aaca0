//! Shared definitions of the authorization core: marker characters and
//! the mapping between access bits and their tag characters.

use vstd::prelude::*;

verus! {

/// Marker on a permissions record: the record's rights override
/// inherited rights for its grantee.
pub const M_IS_EXCLUSIVE: char = 'X';

/// Marker on a membership edge: a downstream exclusive record must not
/// prune grants that arrive over this edge.
pub const M_IGNORE_EXCLUSIVE: char = 'N';

/// Marker value of a record that carries no marker.
pub const M_NONE: char = '\0';

/// The access bits in ascending order, as a spec-level list.
pub open spec fn spec_access_list() -> Seq<u8> {
    seq![1u8, 2u8, 4u8, 8u8, 16u8, 32u8, 64u8, 128u8]
}

/// The tag character of each access bit, in the same order.
pub open spec fn spec_tag_list() -> Seq<char> {
    seq!['M', 'R', 'U', 'P', 'm', 'r', 'u', 'p']
}

/// The access bit named by a tag character, if any.
pub open spec fn spec_access_from_char(c: char) -> Option<u8> {
    match c {
        'M' => Some(1u8),
        'R' => Some(2u8),
        'U' => Some(4u8),
        'P' => Some(8u8),
        'm' => Some(16u8),
        'r' => Some(32u8),
        'u' => Some(64u8),
        'p' => Some(128u8),
        _ => None,
    }
}

/// The tag character of a single access bit, if the byte holds exactly
/// one bit.
pub open spec fn spec_access8_to_char(a: u8) -> Option<char> {
    match a {
        1u8 => Some('M'),
        2u8 => Some('R'),
        4u8 => Some('U'),
        8u8 => Some('P'),
        16u8 => Some('m'),
        32u8 => Some('r'),
        64u8 => Some('u'),
        128u8 => Some('p'),
        _ => None,
    }
}

/// True of the characters that name an access bit.
pub open spec fn spec_is_tag_char(c: char) -> bool {
    spec_access_from_char(c) is Some
}

/// Maps a tag character to the access bit it names.
pub fn access8_from_char(c: char) -> (r: Option<u8>)
    ensures
        r == spec_access_from_char(c),
{
    match c {
        'M' => Some(1),
        'R' => Some(2),
        'U' => Some(4),
        'P' => Some(8),
        'm' => Some(16),
        'r' => Some(32),
        'u' => Some(64),
        'p' => Some(128),
        _ => None,
    }
}

/// Maps a single access bit to its tag character.
pub fn access8_to_char(a: u8) -> (r: Option<char>)
    ensures
        r == spec_access8_to_char(a),
{
    match a {
        1 => Some('M'),
        2 => Some('R'),
        4 => Some('U'),
        8 => Some('P'),
        16 => Some('m'),
        32 => Some('r'),
        64 => Some('u'),
        128 => Some('p'),
        _ => None,
    }
}

/// Maps a tag character to the access bit it names, as `access8_from_char`
/// does; kept separate because callers of the codec treat the two as
/// distinct lookups.
pub fn access_from_char(c: char) -> (r: Option<u8>)
    ensures
        r == spec_access_from_char(c),
{
    access8_from_char(c)
}

/// The one error the engine surfaces: a read from the rights store
/// failed and a retry failed too.
#[derive(Clone, Copy, PartialEq, Eq, Structural, Debug)]
pub struct StorageError;

/// Trace buffers of one decision.  Each buffer collects lines only
/// while its flag is set; the buffers never affect the returned byte.
pub struct Trace {
    pub acl: String,
    pub is_acl: bool,
    pub group: String,
    pub is_group: bool,
    pub info: String,
    pub is_info: bool,
    pub str_num: u32,
}

impl Trace {
    /// A trace with every flag off.
    pub fn new() -> (r: Trace)
        ensures
            r.is_acl == false && r.is_group == false && r.is_info == false,
            r.acl@ == Seq::<char>::empty(),
            r.group@ == Seq::<char>::empty(),
            r.info@ == Seq::<char>::empty(),
            r.str_num == 0u32,
    {
        Trace {
            acl: String::new(),
            is_acl: false,
            group: String::new(),
            is_group: false,
            info: String::new(),
            is_info: false,
            str_num: 0,
        }
    }
}

/// Read access to the rights store.  A storage is a key-to-value view
/// plus a reliability bit: a reliable storage never fails a read.
/// Adapters over an on-disk database implement this outside the
/// verified core; the in-memory storage implements it here.
pub trait Storage {
    /// The key-value map this storage presently holds.
    spec fn contents(&self) -> Map<Seq<char>, Seq<char>>;

    /// True of a storage whose reads cannot fail.
    spec fn reliable(&self) -> bool;

    /// Reads one key.  A missing key is not an error.
    fn get(&mut self, key: &str) -> (r: Result<Option<String>, StorageError>)
        ensures
            final(self).contents() == old(self).contents(),
            final(self).reliable() == old(self).reliable(),
            r matches Ok(Some(v)) ==> old(self).contents().contains_key(key@) && v@ == old(
                self,
            ).contents()[key@],
            r matches Ok(None) ==> !old(self).contents().contains_key(key@),
            old(self).reliable() ==> r is Ok,
    ;

    /// A scheduling hint for cooperative backends; a plain storage
    /// does nothing here.
    fn fiber_yield(&self);
}

} // verus!
