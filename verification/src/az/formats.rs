//! The ACL index text codec.
//!
//! A stored value is an optional date prefix followed by
//! `id ";" encoded_access ";"` pairs.  The encoded access comes in two
//! shapes: the legacy one is one or two hex digits and an optional
//! marker; the current one is a run of tag characters, each with an
//! optional counter, and an optional marker.  The two are told apart by
//! the first character of the value.

use vstd::prelude::*;
use crate::az::common::{
    spec_access_from_char, spec_access_list, spec_is_tag_char, spec_tag_list, M_IGNORE_EXCLUSIVE,
    M_IS_EXCLUSIVE, M_NONE,
};
use crate::az::dates::{spec_date_prefix, spec_extract_date};
use crate::az::records::{
    recs_view, spec_counters_insert, spec_set_insert_all, counters_insert, ACLRecord,
    ACLRecordSet, SpecRecord,
};
use crate::util::{spec_parse_u16, spec_split};

verus! {

/// The counter a value token stands for: a failed parse counts as one.
pub open spec fn spec_count_of(val: Seq<char>) -> u16 {
    match spec_parse_u16(val) {
        Some(v) => v,
        None => 1u16,
    }
}

/// Running state of the current-format value decoder.
pub struct V2State {
    pub access: u8,
    pub marker: char,
    pub tag: Option<char>,
    pub val: Seq<char>,
    pub counters: Seq<(char, u16)>,
}

/// Closes the pending tag: its counter is stored if the tag names an
/// access bit.
pub open spec fn spec_v2_flush(st: V2State) -> Seq<(char, u16)> {
    match st.tag {
        Some(t) => if spec_is_tag_char(t) {
            spec_counters_insert(st.counters, t, spec_count_of(st.val))
        } else {
            st.counters
        },
        None => st.counters,
    }
}

/// One character of a current-format value: a tag or marker character
/// closes the pending tag and opens a new one; any other character
/// extends the pending counter text.
pub open spec fn spec_v2_step(st: V2State, c: char, with_count: bool) -> V2State {
    if spec_is_tag_char(c) || c == M_IS_EXCLUSIVE || c == M_IGNORE_EXCLUSIVE {
        V2State {
            access: match spec_access_from_char(c) {
                Some(a) => st.access | a,
                None => st.access,
            },
            marker: if c == M_IS_EXCLUSIVE || c == M_IGNORE_EXCLUSIVE {
                c
            } else {
                st.marker
            },
            tag: Some(c),
            val: Seq::empty(),
            counters: if with_count {
                spec_v2_flush(st)
            } else {
                st.counters
            },
        }
    } else {
        V2State { val: st.val.push(c), ..st }
    }
}

/// The decoder state after a run of characters.
pub open spec fn spec_v2_run(st: V2State, s: Seq<char>, with_count: bool) -> V2State
    decreases s.len(),
{
    if s.len() == 0 {
        st
    } else {
        spec_v2_run(spec_v2_step(st, s[0], with_count), s.drop_first(), with_count)
    }
}

/// What decoding a current-format value does to a record: the access
/// bits are replaced by the named ones, the marker is replaced if one
/// occurs, and counters accumulate.
pub open spec fn spec_decode_value_v2(rec: SpecRecord, value: Seq<char>, with_count: bool)
    -> SpecRecord {
    let st0 = V2State {
        access: 0u8,
        marker: rec.marker,
        tag: None,
        val: Seq::empty(),
        counters: rec.counters,
    };
    let st1 = spec_v2_run(st0, value, with_count);
    let counters = if with_count {
        spec_v2_flush(st1)
    } else {
        st1.counters
    };
    SpecRecord {
        id: rec.id,
        access: st1.access,
        marker: st1.marker,
        is_deleted: rec.is_deleted,
        counters,
    }
}

/// Decodes a current-format value into a record.
pub fn decode_value_v2(value: &str, rr: &mut ACLRecord, with_count: bool)
    ensures
        final(rr)@ == spec_decode_value_v2(old(rr)@, value@, with_count),
{
    let n = value.unicode_len();
    let mut access: u8 = 0;
    let mut tag: Option<char> = None;
    let mut val = String::new();
    let ghost st0 = V2State {
        access: 0u8,
        marker: rr.marker,
        tag: None,
        val: Seq::empty(),
        counters: rr.counters@,
    };
    let mut i: usize = 0;
    proof {
        assert(value@.skip(0) =~= value@);
    }
    while i < n
        invariant
            0 <= i <= n,
            n == value@.len(),
            rr.id == old(rr).id,
            rr.is_deleted == old(rr).is_deleted,
            st0 == (V2State {
                access: 0u8,
                marker: old(rr)@.marker,
                tag: None,
                val: Seq::empty(),
                counters: old(rr)@.counters,
            }),
            spec_v2_run(st0, value@, with_count) == spec_v2_run(
                V2State {
                    access: access,
                    marker: rr.marker,
                    tag: tag,
                    val: val@,
                    counters: rr.counters@,
                },
                value@.skip(i as int),
                with_count,
            ),
        decreases n - i,
    {
        let c = value.get_char(i);
        let ghost st_cur = V2State {
            access: access,
            marker: rr.marker,
            tag: tag,
            val: val@,
            counters: rr.counters@,
        };
        proof {
            assert(value@.skip(i as int)[0] == value@[i as int]);
            assert(value@.skip(i as int).drop_first() =~= value@.skip(i + 1));
            assert(spec_v2_run(st_cur, value@.skip(i as int), with_count) == spec_v2_run(
                spec_v2_step(st_cur, c, with_count),
                value@.skip(i + 1),
                with_count,
            ));
        }
        let is_marker = c == M_IS_EXCLUSIVE || c == M_IGNORE_EXCLUSIVE;
        let bit = crate::az::common::access_from_char(c);
        if bit.is_some() || is_marker {
            if is_marker {
                rr.marker = c;
            } else {
                match bit {
                    Some(a) => {
                        access = access | a;
                    },
                    None => {},
                }
            }
            if with_count {
                match tag {
                    Some(t) => {
                        let tag_bit = crate::az::common::access_from_char(t);
                        if tag_bit.is_some() {
                            let cnt = count_of(val.as_str());
                            counters_insert(&mut rr.counters, t, cnt);
                        }
                    },
                    None => {},
                }
            }
            tag = Some(c);
            val = String::new();
        } else {
            crate::util::push_char(&mut val, c);
        }
        proof {
            assert((V2State {
                access: access,
                marker: rr.marker,
                tag: tag,
                val: val@,
                counters: rr.counters@,
            }) == spec_v2_step(st_cur, c, with_count));
        }
        i = i + 1;
    }
    proof {
        assert(value@.skip(n as int).len() == 0);
    }
    if with_count {
        match tag {
            Some(t) => {
                let tag_bit = crate::az::common::access_from_char(t);
                if tag_bit.is_some() {
                    let cnt = count_of(val.as_str());
                    counters_insert(&mut rr.counters, t, cnt);
                }
            },
            None => {},
        }
    }
    rr.access = access;
}

/// Reads a counter token; anything unreadable counts as one.
fn count_of(s: &str) -> (r: u16)
    ensures
        r == spec_count_of(s@),
{
    match crate::util::parse_u16(s) {
        Some(v) => v,
        None => 1,
    }
}

/// The value of a hexadecimal digit character, if it is one.
pub open spec fn spec_hex_val(c: char) -> Option<u8> {
    if 48 <= c as int && c as int <= 57 {
        Some((c as int - 48) as u8)
    } else if 97 <= c as int && c as int <= 102 {
        Some((c as int - 87) as u8)
    } else if 65 <= c as int && c as int <= 70 {
        Some((c as int - 55) as u8)
    } else {
        None
    }
}

/// Running state of the legacy value decoder.
pub struct V1State {
    pub access: u8,
    pub marker: char,
    pub digits: nat,
}

/// One character of a legacy value: a marker character sets the
/// marker; the first hex digit gives the low nibble and the second the
/// high nibble; later digits and other characters change nothing.
pub open spec fn spec_v1_step(st: V1State, c: char) -> V1State {
    if c == M_IS_EXCLUSIVE || c == M_IGNORE_EXCLUSIVE {
        V1State { marker: c, ..st }
    } else {
        match spec_hex_val(c) {
            Some(v) => V1State {
                access: if st.digits == 0 {
                    st.access | v
                } else if st.digits == 1 {
                    st.access | (v << 4)
                } else {
                    st.access
                },
                marker: st.marker,
                digits: st.digits + 1,
            },
            None => st,
        }
    }
}

/// The legacy decoder state after a run of characters.
pub open spec fn spec_v1_run(st: V1State, s: Seq<char>) -> V1State
    decreases s.len(),
{
    if s.len() == 0 {
        st
    } else {
        spec_v1_run(spec_v1_step(st, s[0]), s.drop_first())
    }
}

/// Counters a legacy value implies: one for each access bit set.
pub open spec fn spec_v1_counters(cs: Seq<(char, u16)>, access: u8, i: nat) -> Seq<(char, u16)>
    decreases 8 - i,
{
    if i >= 8 {
        cs
    } else {
        let cs2 = if spec_access_list()[i as int] & access != 0 {
            spec_counters_insert(cs, spec_tag_list()[i as int], 1u16)
        } else {
            cs
        };
        spec_v1_counters(cs2, access, i + 1)
    }
}

/// What decoding a legacy value does to a record: access and marker
/// are replaced; with counters, each set bit counts once.
pub open spec fn spec_decode_value_v1(rec: SpecRecord, value: Seq<char>, with_count: bool)
    -> SpecRecord {
    let st = spec_v1_run(V1State { access: 0u8, marker: M_NONE, digits: 0 }, value);
    SpecRecord {
        id: rec.id,
        access: st.access,
        marker: st.marker,
        is_deleted: rec.is_deleted,
        counters: if with_count {
            spec_v1_counters(rec.counters, st.access, 0)
        } else {
            rec.counters
        },
    }
}

/// The access bit and tag character at a position of the bit list.
fn tag_pair(i: usize) -> (r: (u8, char))
    requires
        i < 8,
    ensures
        r.0 == spec_access_list()[i as int],
        r.1 == spec_tag_list()[i as int],
{
    match i {
        0 => (1, 'M'),
        1 => (2, 'R'),
        2 => (4, 'U'),
        3 => (8, 'P'),
        4 => (16, 'm'),
        5 => (32, 'r'),
        6 => (64, 'u'),
        _ => (128, 'p'),
    }
}

/// Decodes a legacy value into a record.
pub fn decode_value_v1(value: &str, rr: &mut ACLRecord, with_count: bool)
    ensures
        final(rr)@ == spec_decode_value_v1(old(rr)@, value@, with_count),
{
    let n = value.unicode_len();
    let mut access: u8 = 0;
    let mut marker: char = M_NONE;
    let mut digits: u64 = 0;
    let ghost st0 = V1State { access: 0u8, marker: M_NONE, digits: 0 };
    let mut i: usize = 0;
    proof {
        assert(value@.skip(0) =~= value@);
    }
    while i < n
        invariant
            0 <= i <= n,
            n == value@.len(),
            rr == old(rr),
            digits <= i,
            st0 == (V1State { access: 0u8, marker: M_NONE, digits: 0 }),
            spec_v1_run(st0, value@) == spec_v1_run(
                V1State { access: access, marker: marker, digits: digits as nat },
                value@.skip(i as int),
            ),
        decreases n - i,
    {
        let c = value.get_char(i);
        let ghost st_cur = V1State { access: access, marker: marker, digits: digits as nat };
        proof {
            assert(value@.skip(i as int)[0] == value@[i as int]);
            assert(value@.skip(i as int).drop_first() =~= value@.skip(i + 1));
            assert(spec_v1_run(st_cur, value@.skip(i as int)) == spec_v1_run(
                spec_v1_step(st_cur, c),
                value@.skip(i + 1),
            ));
        }
        if c == M_IS_EXCLUSIVE || c == M_IGNORE_EXCLUSIVE {
            marker = c;
        } else {
            match hex_val(c) {
                Some(v) => {
                    if digits == 0 {
                        access = access | v;
                    } else if digits == 1 {
                        access = access | (v << 4u8);
                    }
                    digits = digits + 1;
                },
                None => {},
            }
        }
        proof {
            assert((V1State { access: access, marker: marker, digits: digits as nat })
                == spec_v1_step(st_cur, c));
        }
        i = i + 1;
    }
    proof {
        assert(value@.skip(n as int).len() == 0);
    }
    rr.access = access;
    rr.marker = marker;
    if with_count {
        let mut k: usize = 0;
        while k < 8
            invariant
                0 <= k <= 8,
                rr.id == old(rr).id,
                rr.is_deleted == old(rr).is_deleted,
                rr.access == spec_v1_run(st0, value@).access,
                rr.marker == spec_v1_run(st0, value@).marker,
                st0 == (V1State { access: 0u8, marker: M_NONE, digits: 0 }),
                access == rr.access,
                spec_v1_counters(old(rr)@.counters, access, 0) == spec_v1_counters(
                    rr.counters@,
                    access,
                    k as nat,
                ),
            decreases 8 - k,
        {
            let (bit, tc) = tag_pair(k);
            let ghost cs_cur = rr.counters@;
            if bit & access != 0 {
                counters_insert(&mut rr.counters, tc, 1);
            }
            proof {
                assert(spec_v1_counters(cs_cur, access, k as nat) == spec_v1_counters(
                    rr.counters@,
                    access,
                    (k + 1) as nat,
                ));
            }
            k = k + 1;
        }
    }
}

/// The value of a hexadecimal digit character, in executable code.
fn hex_val(c: char) -> (r: Option<u8>)
    ensures
        r == spec_hex_val(c),
{
    let u: u32 = c as u32;
    if 48 <= u && u <= 57 {
        Some((u - 48) as u8)
    } else if 97 <= u && u <= 102 {
        Some((u - 87) as u8)
    } else if 65 <= u && u <= 70 {
        Some((u - 55) as u8)
    } else {
        None
    }
}

} // verus!

use crate::az::dates::extract_date;
use crate::util::split_char;

verus! {

/// A record decoded from one `id ";" value ";"` pair; the shape of the
/// value picks the decoder.
pub open spec fn spec_decode_one(key: Seq<char>, value: Seq<char>, with_count: bool)
    -> SpecRecord
    recommends
        value.len() > 0,
{
    let init = SpecRecord {
        id: key,
        access: 0u8,
        marker: M_NONE,
        is_deleted: false,
        counters: Seq::empty(),
    };
    if spec_access_from_char(value[0]) is None {
        spec_decode_value_v1(init, value, with_count)
    } else {
        spec_decode_value_v2(init, value, with_count)
    }
}

/// The records of a token list, read pairwise; a pair with an empty
/// value yields no record, and a trailing half pair is dropped.
pub open spec fn spec_decode_pairs(tokens: Seq<Seq<char>>, with_count: bool) -> Seq<SpecRecord>
    decreases tokens.len(),
{
    if tokens.len() < 2 {
        Seq::empty()
    } else {
        let rest = spec_decode_pairs(tokens.skip(2), with_count);
        if tokens[1].len() == 0 {
            rest
        } else {
            seq![spec_decode_one(tokens[0], tokens[1], with_count)] + rest
        }
    }
}

/// Decoding a stored value: date off the front, the rest split on
/// `;` and read pairwise.  The flag is false only for a value that is
/// empty after the date.
pub open spec fn spec_decode_records(src: Seq<char>, with_count: bool) -> (
    bool,
    Option<int>,
    Seq<SpecRecord>,
) {
    let (date, rest) = spec_extract_date(src);
    if rest.len() == 0 {
        (false, date, Seq::empty())
    } else {
        (true, date, spec_decode_pairs(spec_split(rest, ';'), with_count))
    }
}

/// Decodes a stored value into a fresh record list.
fn decode_records(src: &str, with_count: bool) -> (r: (bool, Option<i64>, Vec<ACLRecord>))
    ensures
        ({
            let (ok, date, recs) = spec_decode_records(src@, with_count);
            r.0 == ok && recs_view(r.2@) == recs && (match (r.1, date) {
                (Some(k), Some(sk)) => k == sk,
                (None, None) => true,
                _ => false,
            })
        }),
{
    let (date, rest) = extract_date(src);
    if rest.as_str().unicode_len() == 0 {
        let out: Vec<ACLRecord> = Vec::new();
        proof {
            assert(recs_view(out@) =~= Seq::<SpecRecord>::empty());
        }
        return (false, date, out);
    }
    let tokens = split_char(rest.as_str(), ';');
    let ghost tv = tokens.deep_view();
    let mut out: Vec<ACLRecord> = Vec::new();
    let mut idx: usize = 0;
    proof {
        assert(tv.skip(0) =~= tv);
        assert(recs_view(out@) =~= Seq::<SpecRecord>::empty());
        assert(spec_decode_pairs(tv, with_count) =~= recs_view(out@) + spec_decode_pairs(
            tv.skip(0),
            with_count,
        ));
    }
    while idx < tokens.len() && idx + 1 < tokens.len()
        invariant
            0 <= idx <= tv.len(),
            tv == tokens.deep_view(),
            tv.len() == tokens@.len(),
            forall|j: int| 0 <= j < tv.len() ==> tv[j] == #[trigger] tokens@[j]@,
            spec_decode_pairs(tv, with_count) =~= recs_view(out@) + spec_decode_pairs(
                tv.skip(idx as int),
                with_count,
            ),
        decreases tv.len() - idx,
    {
        let value_len = tokens[idx + 1].as_str().unicode_len();
        let ghost rest_pairs = spec_decode_pairs(tv.skip(idx + 2), with_count);
        proof {
            assert(tv.skip(idx as int).len() >= 2);
            assert(tv.skip(idx as int)[0] == tv[idx as int]);
            assert(tv.skip(idx as int)[1] == tv[idx as int + 1]);
            assert(tv.skip(idx as int).skip(2) =~= tv.skip(idx + 2));
            assert(spec_decode_pairs(tv.skip(idx as int), with_count) == (
            if tv[idx as int + 1].len() == 0 {
                rest_pairs
            } else {
                seq![spec_decode_one(tv[idx as int], tv[idx as int + 1], with_count)] + rest_pairs
            }));
        }
        if value_len > 0 {
            let mut rr = ACLRecord::new(tokens[idx].as_str());
            let first = tokens[idx + 1].as_str().get_char(0);
            let is_v1 = crate::az::common::access_from_char(first).is_none();
            if is_v1 {
                decode_value_v1(tokens[idx + 1].as_str(), &mut rr, with_count);
            } else {
                decode_value_v2(tokens[idx + 1].as_str(), &mut rr, with_count);
            }
            proof {
                assert(rr@ == spec_decode_one(tv[idx as int], tv[idx as int + 1], with_count));
            }
            let ghost before = out@;
            out.push(rr);
            proof {
                assert(recs_view(out@) =~= recs_view(before).push(rr@));
                assert((recs_view(before) + (seq![rr@] + rest_pairs)) =~= recs_view(
                    before,
                ).push(rr@) + rest_pairs);
            }
        }
        idx = idx + 2;
    }
    proof {
        assert(tv.skip(idx as int).len() < 2);
        assert(spec_decode_pairs(tv.skip(idx as int), with_count) =~= Seq::<SpecRecord>::empty());
        assert((recs_view(out@) + Seq::<SpecRecord>::empty()) =~= recs_view(out@));
    }
    (true, date, out)
}

/// Decodes a stored value, appending its records in encountered order.
pub fn decode_rec_to_rights(src: &str, result: &mut Vec<ACLRecord>) -> (r: (bool, Option<i64>))
    ensures
        ({
            let (ok, date, recs) = spec_decode_records(src@, false);
            r.0 == ok && recs_view(final(result)@) == recs_view(old(result)@) + recs && (match (
                r.1,
                date,
            ) {
                (Some(k), Some(sk)) => k == sk,
                (None, None) => true,
                _ => false,
            })
        }),
{
    let (ok, date, mut recs) = decode_records(src, false);
    let ghost added = recs_view(recs@);
    let ghost before = result@;
    result.append(&mut recs);
    proof {
        assert(recs_view(result@) =~= recs_view(before) + added);
    }
    (ok, date)
}

/// Decodes a stored value into a record set, accumulating counters.
pub fn decode_rec_to_rightset(src: &str, new_rights: &mut ACLRecordSet) -> (r: (
    bool,
    Option<i64>,
))
    ensures
        ({
            let (ok, date, recs) = spec_decode_records(src@, true);
            r.0 == ok && final(new_rights)@ == spec_set_insert_all(old(new_rights)@, recs)
                && (match (r.1, date) {
                (Some(k), Some(sk)) => k == sk,
                (None, None) => true,
                _ => false,
            })
        }),
{
    let (ok, date, mut recs) = decode_records(src, true);
    let ghost added = recs_view(recs@);
    while recs.len() > 0
        invariant
            spec_set_insert_all(old(new_rights)@, added) == spec_set_insert_all(
                new_rights@,
                recs_view(recs@),
            ),
        decreases recs@.len(),
    {
        let ghost before = recs_view(recs@);
        let rec = recs.remove(0);
        proof {
            assert(recs_view(recs@) =~= before.drop_first());
            assert(before[0] == rec@);
        }
        new_rights.insert(rec);
    }
    proof {
        assert(recs_view(recs@).len() == 0);
    }
    (ok, date)
}

} // verus!

use crate::az::dates::format_date_prefix;
use crate::az::common::{spec_access8_to_char, access8_to_char};
use crate::util::{spec_decimal, spec_hex, u64_to_string, u64_to_hex_string, push_char};

verus! {


/// A filter record with given subject and access and nothing else.
pub open spec fn spec_filter_record(id: Seq<char>, access: u8) -> SpecRecord {
    SpecRecord { id, access, marker: M_NONE, is_deleted: false, counters: Seq::empty() }
}

/// Decoding a filter value: too short a value means an empty filter; a
/// value without readable records carries itself as the subject; else
/// the first record's subject and access make the filter.
pub open spec fn spec_decode_filter(s: Seq<char>) -> (Option<SpecRecord>, Option<int>) {
    let (date, fv) = spec_extract_date(s);
    if fv.len() < 3 {
        (Some(spec_filter_record(Seq::empty(), 0u8)), date)
    } else {
        let recs = spec_decode_records(fv, false).2;
        if recs.len() == 0 {
            (Some(spec_filter_record(fv, 0u8)), date)
        } else {
            (Some(spec_filter_record(recs[0].id, recs[0].access)), date)
        }
    }
}

/// Decodes a filter value into at most one record and its date.
pub fn decode_filter(filter_value: String) -> (r: (Option<ACLRecord>, Option<i64>))
    ensures
        ({
            let (srec, sdate) = spec_decode_filter(filter_value@);
            (match (r.0, srec) {
                (Some(rec), Some(sr)) => rec@ == sr,
                (None, None) => true,
                _ => false,
            }) && (match (r.1, sdate) {
                (Some(k), Some(sk)) => k == sk,
                (None, None) => true,
                _ => false,
            })
        }),
{
    let (date, fv) = extract_date(filter_value.as_str());
    if fv.as_str().unicode_len() < 3 {
        proof {
            reveal_strlit("");
            assert(""@ =~= Seq::<char>::empty());
        }
        return (Some(ACLRecord::new_with_access("", 0)), date);
    }
    let mut filters_set: Vec<ACLRecord> = Vec::new();
    decode_rec_to_rights(fv.as_str(), &mut filters_set);
    proof {
        assert(recs_view(filters_set@) == Seq::<SpecRecord>::empty() + spec_decode_records(
            fv@,
            false,
        ).2);
        assert(Seq::<SpecRecord>::empty() + spec_decode_records(fv@, false).2
            =~= spec_decode_records(fv@, false).2);
    }
    if filters_set.len() == 0 {
        (Some(ACLRecord::new_with_access(fv.as_str(), 0)), date)
    } else {
        let el_id = filters_set[0].id.clone();
        let el_access = filters_set[0].access;
        proof {
            assert(recs_view(filters_set@)[0] == filters_set@[0]@);
        }
        (Some(ACLRecord::new_with_access(el_id.as_str(), el_access)), date)
    }
}

/// The marker suffix of an encoded value: the marker character, where
/// one is set.
pub open spec fn spec_marker_suffix(m: char) -> Seq<char> {
    if m == M_IS_EXCLUSIVE || m == M_IGNORE_EXCLUSIVE {
        seq![m]
    } else {
        Seq::empty()
    }
}

/// A legacy encoded value: the access byte in hex, then the marker.
pub open spec fn spec_encode_value_v1(r: SpecRecord) -> Seq<char> {
    spec_hex(r.access as int) + spec_marker_suffix(r.marker)
}

/// The counter part of a current-format value, with the bits it
/// covers: each positive counter under a real tag is written as the
/// tag and, beyond one, its count.
pub open spec fn spec_encode_counters(cs: Seq<(char, u16)>) -> (Seq<char>, u8)
    decreases cs.len(),
{
    if cs.len() == 0 {
        (Seq::empty(), 0u8)
    } else {
        let (tag, cnt) = cs[0];
        let rest = spec_encode_counters(cs.drop_first());
        match spec_access_from_char(tag) {
            Some(bit) => if cnt > 0 {
                let head = seq![tag] + if cnt > 1 {
                    spec_decimal(cnt as int)
                } else {
                    Seq::empty()
                };
                (head + rest.0, bit | rest.1)
            } else {
                rest
            },
            None => rest,
        }
    }
}

/// The tags of access bits that the counters did not cover, in bit
/// order.
pub open spec fn spec_encode_missing(access: u8, set_access: u8, i: nat) -> Seq<char>
    decreases 8 - i,
{
    if i >= 8 {
        Seq::empty()
    } else {
        let a = spec_access_list()[i as int];
        let head: Seq<char> = if a & access & set_access == 0 {
            match spec_access8_to_char(a & access) {
                Some(c) => seq![c],
                None => Seq::empty(),
            }
        } else {
            Seq::empty()
        };
        head + spec_encode_missing(access, set_access, i + 1)
    }
}

/// A current-format encoded value: counters, uncovered bits, marker.
pub open spec fn spec_encode_value_v2(r: SpecRecord) -> Seq<char> {
    let (cpart, set_access) = spec_encode_counters(r.counters);
    cpart + spec_encode_missing(r.access, set_access, 0) + spec_marker_suffix(r.marker)
}

/// The body of an encoded record set: every record that is not
/// deleted, as `id ";" value ";"`, in set order.
pub open spec fn spec_encode_entries(recs: Seq<SpecRecord>, version: u8) -> Seq<char>
    decreases recs.len(),
{
    if recs.len() == 0 {
        Seq::empty()
    } else {
        let head: Seq<char> = if recs[0].is_deleted {
            Seq::empty()
        } else {
            recs[0].id + seq![';'] + (if version == 1 {
                spec_encode_value_v1(recs[0])
            } else {
                spec_encode_value_v2(recs[0])
            }) + seq![';']
        };
        head + spec_encode_entries(recs.drop_first(), version)
    }
}

/// An encoded record set: optional date prefix, then the entries; an
/// empty body is written as `X`.
pub open spec fn spec_encode_record(date: Option<int>, recs: Seq<SpecRecord>, version: u8)
    -> Seq<char> {
    let prefix: Seq<char> = match date {
        Some(k) => spec_date_prefix(k),
        None => Seq::empty(),
    };
    let body = spec_encode_entries(recs, version);
    if body.len() == 0 {
        prefix + seq!['X']
    } else {
        prefix + body
    }
}

/// Disjunction of bytes is associative.
proof fn lemma_or_assoc(a: u8, b: u8, c: u8)
    ensures
        (a | b) | c == a | (b | c),
{
    assert((a | b) | c == a | (b | c)) by (bit_vector);
}

/// Appends the legacy encoding of a record's value.
fn encode_value_v1(right: &ACLRecord, outbuff: &mut String)
    ensures
        final(outbuff)@ == old(outbuff)@ + spec_encode_value_v1(right@),
{
    let hex = u64_to_hex_string(right.access as u64);
    outbuff.append(hex.as_str());
    if right.marker == M_IS_EXCLUSIVE || right.marker == M_IGNORE_EXCLUSIVE {
        push_char(outbuff, right.marker);
        proof {
            assert(outbuff@ =~= old(outbuff)@ + spec_encode_value_v1(right@));
        }
    } else {
        proof {
            assert(outbuff@ =~= old(outbuff)@ + spec_encode_value_v1(right@));
        }
    }
}




/// Zero is neutral for disjunction of bytes.
proof fn lemma_or_zero(a: u8)
    ensures
        a | 0u8 == a,
        0u8 | a == a,
{
    assert(a | 0u8 == a && 0u8 | a == a) by (bit_vector);
}

/// Appends the current-format encoding of a record's value.
fn encode_value_v2(right: &ACLRecord, outbuff: &mut String)
    ensures
        final(outbuff)@ == old(outbuff)@ + spec_encode_value_v2(right@),
{
    let ghost cs = right.counters@;
    let mut part = String::new();
    let mut set_access: u8 = 0;
    let mut i: usize = 0;
    proof {
        assert(cs.skip(0) =~= cs);
        assert(spec_encode_counters(cs).0 =~= part@ + spec_encode_counters(cs.skip(0)).0);
        lemma_or_zero(spec_encode_counters(cs).1);
    }
    while i < right.counters.len()
        invariant
            0 <= i <= cs.len(),
            cs == right.counters@,
            spec_encode_counters(cs).0 =~= part@ + spec_encode_counters(cs.skip(i as int)).0,
            spec_encode_counters(cs).1 == set_access | spec_encode_counters(cs.skip(i as int)).1,
        decreases cs.len() - i,
    {
        let (tag, count) = right.counters[i];
        proof {
            assert(cs.skip(i as int)[0] == cs[i as int]);
            assert(cs.skip(i as int).drop_first() =~= cs.skip(i + 1));
        }
        let ghost rest1 = spec_encode_counters(cs.skip(i + 1));
        let c_bit = crate::az::common::access_from_char(tag);
        match c_bit {
            Some(bit) => {
                if count > 0 {
                    let ghost part_before = part@;
                    push_char(&mut part, tag);
                    if count > 1 {
                        let cnt_str = u64_to_string(count as u64);
                        part.append(cnt_str.as_str());
                    }
                    proof {
                        let head = seq![tag] + if count > 1 {
                            spec_decimal(count as int)
                        } else {
                            Seq::<char>::empty()
                        };
                        assert(part@ =~= part_before + head);
                        assert(spec_encode_counters(cs.skip(i as int)).0 =~= head + rest1.0);
                        assert((part_before + (head + rest1.0)) =~= (part_before + head) + rest1.0);
                        lemma_or_assoc(set_access, bit, rest1.1);
                    }
                    set_access = set_access | bit;
                }
            },
            None => {},
        }
        proof {
            assert(spec_encode_counters(cs).0 =~= part@ + spec_encode_counters(cs.skip(i + 1)).0);
        }
        i = i + 1;
    }
    proof {
        assert(cs.skip(cs.len() as int).len() == 0);
        assert(spec_encode_counters(cs).0 =~= part@);
        lemma_or_zero(set_access);
        assert(spec_encode_counters(cs).1 == set_access);
    }
    let access = right.access;
    let mut miss = String::new();
    let mut k: usize = 0;
    proof {
        assert(spec_encode_missing(access, set_access, 0) =~= miss@ + spec_encode_missing(
            access,
            set_access,
            0,
        ));
    }
    while k < 8
        invariant
            0 <= k <= 8,
            access == right.access,
            spec_encode_missing(access, set_access, 0) =~= miss@ + spec_encode_missing(
                access,
                set_access,
                k as nat,
            ),
        decreases 8 - k,
    {
        let (a, _tc) = tag_pair(k);
        if a & access & set_access == 0 {
            match access8_to_char(a & access) {
                Some(c) => {
                    push_char(&mut miss, c);
                },
                None => {},
            }
        }
        proof {
            assert(spec_encode_missing(access, set_access, 0) =~= miss@ + spec_encode_missing(
                access,
                set_access,
                (k + 1) as nat,
            ));
        }
        k = k + 1;
    }
    proof {
        assert(spec_encode_missing(access, set_access, 8) =~= Seq::<char>::empty());
        assert(miss@ =~= spec_encode_missing(access, set_access, 0));
    }
    outbuff.append(part.as_str());
    outbuff.append(miss.as_str());
    if right.marker == M_IS_EXCLUSIVE || right.marker == M_IGNORE_EXCLUSIVE {
        push_char(outbuff, right.marker);
    }
    proof {
        assert(outbuff@ =~= old(outbuff)@ + spec_encode_value_v2(right@));
    }
}



/// Encodes a record set, with an optional validity date, in the named
/// format version.
pub fn encode_record(date: Option<i64>, new_rights: &ACLRecordSet, version_of_index_format: u8)
    -> (r: String)
    requires
        date matches Some(k) ==> 0 <= k < 100000000,
    ensures
        r@ == spec_encode_record(
            match date {
                Some(k) => Some(k as int),
                None => None,
            },
            new_rights@,
            version_of_index_format,
        ),
{
    let ghost recs = new_rights@;
    let mut body = String::new();
    let mut count: usize = 0;
    let mut i: usize = 0;
    proof {
        assert(recs.skip(0) =~= recs);
        assert(spec_encode_entries(recs, version_of_index_format) =~= body@ + spec_encode_entries(
            recs.skip(0),
            version_of_index_format,
        ));
    }
    while i < new_rights.records.len()
        invariant
            0 <= i <= recs.len(),
            recs == new_rights@,
            recs.len() == new_rights.records@.len(),
            count <= i,
            count == 0 <==> body@.len() == 0,
            spec_encode_entries(recs, version_of_index_format) =~= body@ + spec_encode_entries(
                recs.skip(i as int),
                version_of_index_format,
            ),
        decreases recs.len() - i,
    {
        proof {
            assert(recs.skip(i as int)[0] == recs[i as int]);
            assert(recs.skip(i as int).drop_first() =~= recs.skip(i + 1));
            assert(recs[i as int] == new_rights.records@[i as int]@);
        }
        let ghost body_before = body@;
        if !new_rights.records[i].is_deleted {
            body.append(new_rights.records[i].id.as_str());
            push_char(&mut body, ';');
            let ghost after_id = body@;
            if version_of_index_format == 1 {
                encode_value_v1(&new_rights.records[i], &mut body);
            } else {
                encode_value_v2(&new_rights.records[i], &mut body);
            }
            push_char(&mut body, ';');
            count = count + 1;
            proof {
                let head = recs[i as int].id + seq![';'] + (if version_of_index_format == 1 {
                    spec_encode_value_v1(recs[i as int])
                } else {
                    spec_encode_value_v2(recs[i as int])
                }) + seq![';'];
                assert(body@ =~= body_before + head);
                assert((body_before + (head + spec_encode_entries(
                    recs.skip(i + 1),
                    version_of_index_format,
                ))) =~= (body_before + head) + spec_encode_entries(
                    recs.skip(i + 1),
                    version_of_index_format,
                ));
            }
        }
        proof {
            assert(spec_encode_entries(recs, version_of_index_format) =~= body@
                + spec_encode_entries(recs.skip(i + 1), version_of_index_format));
        }
        i = i + 1;
    }
    proof {
        assert(recs.skip(recs.len() as int).len() == 0);
        assert(body@ =~= spec_encode_entries(recs, version_of_index_format));
    }
    let mut builder = String::new();
    match date {
        Some(k) => {
            let p = format_date_prefix(k);
            builder.append(p.as_str());
        },
        None => {},
    }
    let ghost prefix: Seq<char> = match date {
        Some(k) => spec_date_prefix(k as int),
        None => Seq::empty(),
    };
    proof {
        assert(builder@ =~= prefix);
    }
    if count == 0 {
        push_char(&mut builder, 'X');
        proof {
            assert(builder@ =~= prefix + seq!['X']);
        }
    } else {
        builder.append(body.as_str());
    }
    builder
}


} // verus!

use crate::az::records::{counters_get, spec_counters_get};

verus! {

/// One tag of a counter update, mirroring one turn of the update
/// loop: reference counts grow on grant and shrink on removal, and
/// the outgoing access bit follows the count; with `drop` the count
/// collapses to zero or one.
pub open spec fn spec_uc_tag(
    cs: Seq<(char, u16)>,
    out: u8,
    prev: u8,
    deleted: bool,
    drop: bool,
    i: int,
) -> (Seq<(char, u16)>, u8) {
    let tag = spec_tag_list()[i];
    let bit = spec_access_list()[i];
    match spec_counters_get(cs, tag) {
        Some(cc) => {
            if out & bit != 0 {
                if drop {
                    if deleted {
                        (spec_counters_insert(cs, tag, 0u16), out & !bit)
                    } else {
                        (spec_counters_insert(cs, tag, 1u16), out | bit)
                    }
                } else {
                    if deleted {
                        if prev & bit != 0 {
                            let cc2: u16 = if cc > 0 {
                                (cc - 1) as u16
                            } else {
                                0u16
                            };
                            (
                                spec_counters_insert(cs, tag, cc2),
                                if cc2 == 0 {
                                    out & !bit
                                } else {
                                    out
                                },
                            )
                        } else {
                            (cs, out)
                        }
                    } else {
                        let cc2: u16 = if cc < 65535 {
                            (cc + 1) as u16
                        } else {
                            cc
                        };
                        (spec_counters_insert(cs, tag, cc2), out | bit)
                    }
                }
            } else {
                if drop && cc > 0 {
                    (cs, out | bit)
                } else {
                    (cs, out)
                }
            }
        },
        None => {
            if !deleted && out & bit != 0 {
                (spec_counters_insert(cs, tag, 1u16), out | bit)
            } else {
                (cs, out)
            }
        },
    }
}

/// The counter update from tag position `i` on.
pub open spec fn spec_update_counters_from(
    cs: Seq<(char, u16)>,
    out: u8,
    prev: u8,
    deleted: bool,
    drop: bool,
    i: nat,
) -> (Seq<(char, u16)>, u8)
    decreases 8 - i,
{
    if i >= 8 {
        (cs, out)
    } else {
        let stepped = spec_uc_tag(cs, out, prev, deleted, drop, i as int);
        spec_update_counters_from(stepped.0, stepped.1, prev, deleted, drop, i + 1)
    }
}

/// The whole counter update: every tag in order, starting from the
/// incoming access byte.
pub open spec fn spec_update_counters(
    cs: Seq<(char, u16)>,
    prev: u8,
    cur: u8,
    deleted: bool,
    drop: bool,
) -> (Seq<(char, u16)>, u8) {
    spec_update_counters_from(cs, cur, prev, deleted, drop, 0)
}

/// Applies a grant or removal to the counter map and returns the
/// access bits that remain in force.
pub fn update_counters(
    counters: &mut Vec<(char, u16)>,
    prev_access: u8,
    cur_access: u8,
    is_deleted: bool,
    is_drop_count: bool,
) -> (out: u8)
    ensures
        ({
            let r = spec_update_counters(
                old(counters)@,
                prev_access,
                cur_access,
                is_deleted,
                is_drop_count,
            );
            final(counters)@ == r.0 && out == r.1
        }),
{
    let ghost target = spec_update_counters(
        counters@,
        prev_access,
        cur_access,
        is_deleted,
        is_drop_count,
    );
    let mut out_access: u8 = cur_access;
    let mut i: usize = 0;
    while i < 8
        invariant
            0 <= i <= 8,
            target == spec_update_counters_from(
                counters@,
                out_access,
                prev_access,
                is_deleted,
                is_drop_count,
                i as nat,
            ),
        decreases 8 - i,
    {
        let (bit, tag) = tag_pair(i);
        let ghost cs_cur = counters@;
        let ghost out_cur = out_access;
        proof {
            assert(spec_update_counters_from(
                cs_cur,
                out_cur,
                prev_access,
                is_deleted,
                is_drop_count,
                i as nat,
            ) == ({
                let stepped = spec_uc_tag(
                    cs_cur,
                    out_cur,
                    prev_access,
                    is_deleted,
                    is_drop_count,
                    i as int,
                );
                spec_update_counters_from(
                    stepped.0,
                    stepped.1,
                    prev_access,
                    is_deleted,
                    is_drop_count,
                    (i + 1) as nat,
                )
            }));
        }
        match counters_get(counters, tag) {
            Some(cc) => {
                if out_access & bit != 0 {
                    if is_drop_count {
                        if is_deleted {
                            crate::az::records::counters_insert(counters, tag, 0);
                            out_access = out_access & !bit;
                        } else {
                            crate::az::records::counters_insert(counters, tag, 1);
                            out_access = out_access | bit;
                        }
                    } else {
                        if is_deleted {
                            if prev_access & bit != 0 {
                                let cc2: u16 = if cc > 0 {
                                    cc - 1
                                } else {
                                    0
                                };
                                crate::az::records::counters_insert(counters, tag, cc2);
                                if cc2 == 0 {
                                    out_access = out_access & !bit;
                                }
                            }
                        } else {
                            let cc2: u16 = if cc < 65535 {
                                cc + 1
                            } else {
                                cc
                            };
                            crate::az::records::counters_insert(counters, tag, cc2);
                            out_access = out_access | bit;
                        }
                    }
                } else {
                    if is_drop_count && cc > 0 {
                        out_access = out_access | bit;
                    }
                }
            },
            None => {
                if !is_deleted && (out_access & bit != 0) {
                    out_access = out_access | bit;
                    crate::az::records::counters_insert(counters, tag, 1);
                }
            },
        }
        proof {
            assert((counters@, out_access) == spec_uc_tag(
                cs_cur,
                out_cur,
                prev_access,
                is_deleted,
                is_drop_count,
                i as int,
            ));
        }
        i = i + 1;
    }
    out_access
}

} // verus!
