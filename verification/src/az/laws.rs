//! Laws of the decision engine, proved over its specification.

use vstd::prelude::*;
use crate::az::engine::{
    spec_apply_all, spec_apply_neg_record, spec_apply_neg_records, spec_apply_record,
    spec_apply_records, spec_apply_rid, spec_authorize, spec_initial_state, AzState, GroupEntry,
};
use crate::az::records::SpecRecord;

verus! {

/// Masking with the complement of the request kills every grant shape
/// the fold can produce.
proof fn lemma_step_bound(g: u8, p: u8, r: u8, f: u8, d: u8)
    requires
        g & !r == 0,
    ensures
        ((g | (p & r & f)) & !d) & !r == 0,
        ((p & r & f) & !d) & !r == 0,
        (g & !d) & !r == 0,
{
    assert((g & !r == 0 ==> ((g | (p & r & f)) & !d) & !r == 0) && ((p & r & f) & !d) & !r == 0
        && (g & !r == 0 ==> (g & !d) & !r == 0)) by (bit_vector);
}

/// One permission record keeps the grant inside the request.
proof fn lemma_apply_record_bound(
    st: AzState,
    rec: SpecRecord,
    req: u8,
    filter: u8,
    users: Seq<GroupEntry>,
)
    requires
        st.granted & !req == 0,
    ensures
        spec_apply_record(st, rec, req, filter, users).granted & !req == 0,
{
    lemma_step_bound(
        st.granted,
        rec.access & 0x0fu8,
        req,
        filter,
        st.denied | ((rec.access >> 4u8) & 0x0fu8),
    );
}

/// One prohibition record keeps the grant inside the request.
proof fn lemma_apply_neg_record_bound(
    st: AzState,
    rec: SpecRecord,
    req: u8,
    users: Seq<GroupEntry>,
)
    requires
        st.granted & !req == 0,
    ensures
        spec_apply_neg_record(st, rec, req, users).granted & !req == 0,
{
    let d2 = st.denied | (rec.access & 0x0fu8) | ((rec.access >> 4u8) & 0x0fu8);
    lemma_step_bound(st.granted, 0u8, req, 0u8, d2);
}

/// A run of permission records keeps the grant inside the request.
proof fn lemma_apply_records_bound(
    st: AzState,
    recs: Seq<SpecRecord>,
    req: u8,
    filter: u8,
    users: Seq<GroupEntry>,
)
    requires
        st.granted & !req == 0,
    ensures
        spec_apply_records(st, recs, req, filter, users).granted & !req == 0,
    decreases recs.len(),
{
    if recs.len() == 0 {
    } else {
        lemma_apply_record_bound(st, recs[0], req, filter, users);
        lemma_apply_records_bound(
            spec_apply_record(st, recs[0], req, filter, users),
            recs.drop_first(),
            req,
            filter,
            users,
        );
    }
}

/// A run of prohibition records keeps the grant inside the request.
proof fn lemma_apply_neg_records_bound(
    st: AzState,
    recs: Seq<SpecRecord>,
    req: u8,
    users: Seq<GroupEntry>,
)
    requires
        st.granted & !req == 0,
    ensures
        spec_apply_neg_records(st, recs, req, users).granted & !req == 0,
    decreases recs.len(),
{
    if recs.len() == 0 {
    } else {
        lemma_apply_neg_record_bound(st, recs[0], req, users);
        lemma_apply_neg_records_bound(
            spec_apply_neg_record(st, recs[0], req, users),
            recs.drop_first(),
            req,
            users,
        );
    }
}

/// The whole resource-side fold keeps the grant inside the request.
proof fn lemma_apply_all_bound(
    st: AzState,
    store: Map<Seq<char>, Seq<char>>,
    today: int,
    rids: Seq<GroupEntry>,
    req: u8,
    filter: u8,
    users: Seq<GroupEntry>,
)
    requires
        st.granted & !req == 0,
    ensures
        spec_apply_all(st, store, today, rids, req, filter, users).granted & !req == 0,
    decreases rids.len(),
{
    if rids.len() == 0 {
    } else {
        let st1 = spec_apply_records(
            st,
            crate::az::engine::spec_live_records(
                store,
                today,
                crate::az::engine::spec_permission_key(rids[0].id),
                false,
            ),
            req,
            filter,
            users,
        );
        lemma_apply_records_bound(
            st,
            crate::az::engine::spec_live_records(
                store,
                today,
                crate::az::engine::spec_permission_key(rids[0].id),
                false,
            ),
            req,
            filter,
            users,
        );
        lemma_apply_neg_records_bound(
            st1,
            crate::az::engine::spec_live_records(
                store,
                today,
                crate::az::engine::spec_prohibition_key(rids[0].id),
                false,
            ),
            req,
            users,
        );
        lemma_apply_all_bound(
            spec_apply_rid(st, store, today, rids[0].id, req, filter, users),
            store,
            today,
            rids.drop_first(),
            req,
            filter,
            users,
        );
    }
}

/// The engine never grants a bit that was not requested: whatever the
/// store holds, the decision byte has no bit outside the request.
pub proof fn lemma_never_grants_unrequested(
    store: Map<Seq<char>, Seq<char>>,
    today: int,
    uri: Seq<char>,
    user: Seq<char>,
    req: u8,
)
    ensures
        spec_authorize(store, today, uri, user, req) & !req == 0,
{
    assert(0u8 & !req == 0) by (bit_vector);
    lemma_apply_all_bound(
        spec_initial_state(),
        store,
        today,
        crate::az::engine::spec_side_groups(store, today, uri),
        req,
        crate::az::engine::spec_filter_mask(store, today, uri),
        crate::az::engine::spec_side_groups(store, today, user),
    );
}

/// Deciding the same query twice against an unchanged store on the
/// same day yields the same byte: the engine's result is pinned to
/// `spec_authorize`, a function of the store's contents alone.
pub proof fn lemma_authorize_idempotent(
    store: Map<Seq<char>, Seq<char>>,
    today: int,
    uri: Seq<char>,
    user: Seq<char>,
    req: u8,
    b1: u8,
    b2: u8,
)
    requires
        b1 == spec_authorize(store, today, uri, user, req),
        b2 == spec_authorize(store, today, uri, user, req),
    ensures
        b1 == b2,
{
}

} // verus!

use crate::az::dates::{spec_expired, spec_extract_date};
use crate::az::engine::{
    spec_children, spec_expand, spec_filter_key, spec_filter_mask, spec_live_records,
    spec_membership_key, spec_permission_key, spec_prohibition_key, spec_side_groups,
};

verus! {

/// Two stores whose live records agree on every key.
pub open spec fn same_live_records(
    s1: Map<Seq<char>, Seq<char>>,
    s2: Map<Seq<char>, Seq<char>>,
    today: int,
) -> bool {
    forall|k: Seq<char>|
        #[trigger] spec_live_records(s1, today, k, false) == spec_live_records(s2, today, k, false)
}

/// Stores with the same live records expand alike.
proof fn lemma_expand_congruent(
    s1: Map<Seq<char>, Seq<char>>,
    s2: Map<Seq<char>, Seq<char>>,
    today: int,
    worklist: Seq<GroupEntry>,
    visited: Seq<GroupEntry>,
    fuel: nat,
)
    requires
        same_live_records(s1, s2, today),
    ensures
        spec_expand(s1, today, worklist, visited, fuel) == spec_expand(
            s2,
            today,
            worklist,
            visited,
            fuel,
        ),
    decreases fuel, worklist.len(),
{
    if worklist.len() == 0 {
    } else {
        let head = worklist[0];
        if crate::az::engine::spec_groups_find(visited, head.id) is Some {
            lemma_expand_congruent(s1, s2, today, worklist.drop_first(), visited, fuel);
        } else if fuel == 0 {
        } else {
            assert(spec_live_records(s1, today, spec_membership_key(head.id), false)
                == spec_live_records(s2, today, spec_membership_key(head.id), false));
            assert(spec_children(s1, today, head) == spec_children(s2, today, head));
            lemma_expand_congruent(
                s1,
                s2,
                today,
                worklist.drop_first() + spec_children(s1, today, head),
                visited.push(head),
                (fuel - 1) as nat,
            );
        }
    }
}

/// Stores with the same live records fold alike.
proof fn lemma_apply_all_congruent(
    st: AzState,
    s1: Map<Seq<char>, Seq<char>>,
    s2: Map<Seq<char>, Seq<char>>,
    today: int,
    rids: Seq<GroupEntry>,
    req: u8,
    filter: u8,
    users: Seq<GroupEntry>,
)
    requires
        same_live_records(s1, s2, today),
    ensures
        spec_apply_all(st, s1, today, rids, req, filter, users) == spec_apply_all(
            st,
            s2,
            today,
            rids,
            req,
            filter,
            users,
        ),
    decreases rids.len(),
{
    if rids.len() == 0 {
    } else {
        assert(spec_live_records(s1, today, spec_permission_key(rids[0].id), false)
            == spec_live_records(s2, today, spec_permission_key(rids[0].id), false));
        assert(spec_live_records(s1, today, spec_prohibition_key(rids[0].id), false)
            == spec_live_records(s2, today, spec_prohibition_key(rids[0].id), false));
        lemma_apply_all_congruent(
            spec_apply_rid(st, s1, today, rids[0].id, req, filter, users),
            s1,
            s2,
            today,
            rids.drop_first(),
            req,
            filter,
            users,
        );
    }
}

/// A stored value whose validity date has passed decides nothing: the
/// engine answers as if its key were not in the store at all.
pub proof fn lemma_expired_value_is_absent(
    store: Map<Seq<char>, Seq<char>>,
    today: int,
    uri: Seq<char>,
    user: Seq<char>,
    req: u8,
    key: Seq<char>,
)
    requires
        store.contains_key(key),
        spec_expired(spec_extract_date(store[key]).0, today),
    ensures
        spec_authorize(store, today, uri, user, req) == spec_authorize(
            store.remove(key),
            today,
            uri,
            user,
            req,
        ),
{
    let s2 = store.remove(key);
    assert forall|k: Seq<char>|
        #[trigger] spec_live_records(store, today, k, false) == spec_live_records(
            s2,
            today,
            k,
            false,
        ) by {
        if k == key {
            assert(spec_live_records(store, today, k, false) =~= Seq::<SpecRecord>::empty());
            assert(!s2.contains_key(k));
            assert(spec_live_records(s2, today, k, false) =~= Seq::<SpecRecord>::empty());
        } else {
            if store.contains_key(k) {
                assert(s2.contains_key(k) && s2[k] == store[k]);
            } else {
                assert(!s2.contains_key(k));
            }
        }
    }
    assert(spec_filter_mask(store, today, uri) == spec_filter_mask(s2, today, uri)) by {
        let fk = spec_filter_key(uri);
        if fk == key {
            assert(spec_expired(crate::az::formats::spec_decode_filter(store[fk]).1, today));
            assert(!s2.contains_key(fk));
        } else {
            if store.contains_key(fk) {
                assert(s2.contains_key(fk) && s2[fk] == store[fk]);
            } else {
                assert(!s2.contains_key(fk));
            }
        }
    }
    lemma_expand_congruent(
        store,
        s2,
        today,
        seq![GroupEntry { id: user, ignore_exclusive: false }],
        Seq::empty(),
        crate::az::engine::EXPAND_LIMIT as nat,
    );
    lemma_expand_congruent(
        store,
        s2,
        today,
        seq![GroupEntry { id: uri, ignore_exclusive: false }],
        Seq::empty(),
        crate::az::engine::EXPAND_LIMIT as nat,
    );
    lemma_apply_all_congruent(
        spec_initial_state(),
        store,
        s2,
        today,
        spec_side_groups(store, today, uri),
        req,
        spec_filter_mask(store, today, uri),
        spec_side_groups(store, today, user),
    );
}

} // verus!

use crate::az::common::M_IS_EXCLUSIVE;

verus! {

/// A run of permission records that carries no deny bits.
pub open spec fn deny_free(recs: Seq<SpecRecord>) -> bool {
    forall|j: int| 0 <= j < recs.len() ==> ((#[trigger] recs[j].access) >> 4u8) & 0x0fu8 == 0
}

/// Folding a prefix first and the rest after is the whole fold.
proof fn lemma_apply_records_split(
    st: AzState,
    recs: Seq<SpecRecord>,
    k: int,
    req: u8,
    filter: u8,
    users: Seq<GroupEntry>,
)
    requires
        0 <= k <= recs.len(),
    ensures
        spec_apply_records(st, recs, req, filter, users) == spec_apply_records(
            spec_apply_records(st, recs.take(k), req, filter, users),
            recs.skip(k),
            req,
            filter,
            users,
        ),
    decreases k,
{
    if k == 0 {
        assert(recs.take(0).len() == 0);
        assert(recs.skip(0) =~= recs);
    } else {
        assert(recs.take(k)[0] == recs[0]);
        assert(recs.take(k).drop_first() =~= recs.drop_first().take(k - 1));
        assert(recs.skip(k) =~= recs.drop_first().skip(k - 1));
        lemma_apply_records_split(
            spec_apply_record(st, recs[0], req, filter, users),
            recs.drop_first(),
            k - 1,
            req,
            filter,
            users,
        );
    }
}

/// After an exclusive record took hold, a deny-free run changes the
/// grant no further.
proof fn lemma_exclusive_tail(
    st: AzState,
    recs: Seq<SpecRecord>,
    req: u8,
    filter: u8,
    users: Seq<GroupEntry>,
)
    requires
        st.done || st.exclusive,
        st.denied == 0u8,
        deny_free(recs),
    ensures
        spec_apply_records(st, recs, req, filter, users).granted == st.granted,
    decreases recs.len(),
{
    if recs.len() == 0 {
    } else {
        let st2 = spec_apply_record(st, recs[0], req, filter, users);
        assert(st2.granted == st.granted && st2.denied == 0u8 && (st2.done || st2.exclusive)) by {
            if !st.done {
                match crate::az::engine::spec_groups_find(users, recs[0].id) {
                    Some(_f) => {
                        let g = st.granted;
                        assert(((recs[0].access) >> 4u8) & 0x0fu8 == 0);
                        assert(0u8 | 0u8 == 0u8 && g & !0u8 == g) by (bit_vector);
                    },
                    None => {},
                }
            }
        }
        assert(deny_free(recs.drop_first())) by {
            assert(forall|j: int|
                0 <= j < recs.drop_first().len() ==> recs.drop_first()[j] == recs[j + 1]);
        }
        lemma_exclusive_tail(st2, recs.drop_first(), req, filter, users);
    }
}

/// The exclusive marker prunes: in a deny-free run, a record marked
/// exclusive whose grantee the user reached over a non-forgiving path
/// makes the run's grant exactly that record's permit bits, masked by
/// the request and the filter — whatever other records grant.  The
/// hypotheses name the record and say that no earlier record already
/// answered the query or took exclusive hold.
pub proof fn lemma_exclusive_prunes(
    st0: AzState,
    recs: Seq<SpecRecord>,
    k: int,
    req: u8,
    filter: u8,
    users: Seq<GroupEntry>,
)
    requires
        0 <= k < recs.len(),
        deny_free(recs),
        st0.denied == 0u8 && !st0.exclusive && !st0.done,
        ({
            let stk = spec_apply_records(st0, recs.take(k), req, filter, users);
            !stk.done && !stk.exclusive && stk.denied == 0u8
        }),
        crate::az::engine::spec_groups_find(users, recs[k].id) == Some(false),
        recs[k].marker == M_IS_EXCLUSIVE,
    ensures
        spec_apply_records(st0, recs, req, filter, users).granted == recs[k].access & 0x0fu8 & req
            & filter,
{
    lemma_apply_records_split(st0, recs, k, req, filter, users);
    let stk = spec_apply_records(st0, recs.take(k), req, filter, users);
    assert(recs.skip(k)[0] == recs[k]);
    let stk1 = spec_apply_record(stk, recs[k], req, filter, users);
    assert(stk1.granted == recs[k].access & 0x0fu8 & req & filter && stk1.denied == 0u8
        && stk1.exclusive) by {
        let a = recs[k].access;
        assert(((recs[k].access) >> 4u8) & 0x0fu8 == 0);
        assert(0u8 | 0u8 == 0u8 && (a & 0x0fu8 & req & filter) & !0u8 == a & 0x0fu8 & req
            & filter) by (bit_vector);
    }
    assert(deny_free(recs.skip(k).drop_first())) by {
        assert(forall|j: int|
            0 <= j < recs.skip(k).drop_first().len() ==> recs.skip(k).drop_first()[j] == recs[j + k
                + 1]);
    }
    lemma_exclusive_tail(stk1, recs.skip(k).drop_first(), req, filter, users);
}

} // verus!

use crate::az::common::{spec_access_list, spec_tag_list};
use crate::az::formats::{spec_uc_tag, spec_update_counters, spec_update_counters_from};
use crate::az::records::{spec_counters_get, spec_counters_insert};

verus! {

/// Adding the same grant over and over: the counter map after `n`
/// applications of the grant path of `update_counters`.
pub open spec fn spec_add_n(cs: Seq<(char, u16)>, access: u8, n: nat) -> Seq<(char, u16)>
    decreases n,
{
    if n == 0 {
        cs
    } else {
        spec_add_n(
            spec_update_counters(cs, access, access, false, false).0,
            access,
            (n - 1) as nat,
        )
    }
}

/// Removing the same grant over and over: the counter map and the
/// last returned access byte after `n` applications of the removal
/// path.
pub open spec fn spec_remove_n(cs: Seq<(char, u16)>, access: u8, n: nat) -> (Seq<(char, u16)>, u8)
    decreases n,
{
    if n == 0 {
        (cs, access)
    } else {
        let stepd = spec_update_counters(cs, access, access, true, false);
        if n == 1 {
            stepd
        } else {
            spec_remove_n(stepd.0, access, (n - 1) as nat)
        }
    }
}

/// Reading a freshly stored counter, and reading past it.
proof fn lemma_insert_get(cs: Seq<(char, u16)>, tag: char, v: u16, q: char)
    ensures
        spec_counters_get(spec_counters_insert(cs, tag, v), q) == (if q == tag {
            Some(v)
        } else {
            spec_counters_get(cs, q)
        }),
    decreases cs.len(),
{
    if cs.len() == 0 {
        let r = seq![(tag, v)];
        assert(spec_counters_insert(cs, tag, v) =~= r);
        assert(r[0] == (tag, v));
        assert(r[0].0 == tag && r[0].1 == v);
        assert(r.drop_first().len() == 0);
        assert(spec_counters_get(r, tag) == Some(v));
        if q != tag {
            assert(spec_counters_get(r, q) == spec_counters_get(r.drop_first(), q));
            assert(spec_counters_get(r, q) is None);
        }
    } else if cs[0].0 == tag {
        let r = seq![(tag, v)] + cs.drop_first();
        assert(spec_counters_insert(cs, tag, v) == r);
        assert(r[0] == (tag, v));
        assert(r[0].0 == tag && r[0].1 == v);
        assert(r.drop_first() =~= cs.drop_first());
        if q == tag {
            assert(spec_counters_get(r, q) == Some(v));
        } else {
            assert(spec_counters_get(r, q) == spec_counters_get(cs.drop_first(), q));
            assert(spec_counters_get(cs, q) == spec_counters_get(cs.drop_first(), q));
        }
    } else {
        lemma_insert_get(cs.drop_first(), tag, v, q);
        let r = seq![cs[0]] + spec_counters_insert(cs.drop_first(), tag, v);
        assert(spec_counters_insert(cs, tag, v) == r);
        assert(r[0] == cs[0]);
        assert(r.drop_first() =~= spec_counters_insert(cs.drop_first(), tag, v));
        if q == cs[0].0 {
            assert(spec_counters_get(r, q) == Some(cs[0].1));
            assert(spec_counters_get(cs, q) == Some(cs[0].1));
        } else {
            assert(spec_counters_get(r, q) == spec_counters_get(r.drop_first(), q));
            assert(spec_counters_get(cs, q) == spec_counters_get(cs.drop_first(), q));
        }
    }
}

/// The access bits are the eight powers of two, and their tags are
/// eight distinct characters.
proof fn lemma_tag_table()
    ensures
        forall|i: int| 0 <= i < 8 ==> #[trigger] spec_access_list()[i] == 1u8 << (i as u8),
        forall|i: int, j: int|
            0 <= i < 8 && 0 <= j < 8 && i != j ==> spec_tag_list()[i] != spec_tag_list()[j],
{
    assert(1u8 == 1u8 << 0u8 && 2u8 == 1u8 << 1u8 && 4u8 == 1u8 << 2u8 && 8u8 == 1u8 << 3u8
        && 16u8 == 1u8 << 4u8 && 32u8 == 1u8 << 5u8 && 64u8 == 1u8 << 6u8 && 128u8 == 1u8
        << 7u8) by (bit_vector);
}

/// The counter map shape one grant pass maintains: tags before the
/// cursor already count `hi`, the rest still count `lo`; a zero count
/// means no entry, and tags outside the grant have none.
pub open spec fn add_shape(cs: Seq<(char, u16)>, access: u8, lo: u16, hi: u16, p: int) -> bool {
    forall|i: int|
        0 <= i < 8 ==> #[trigger] spec_counters_get(cs, spec_tag_list()[i]) == (if access
            & spec_access_list()[i] == 0 {
            None
        } else if i < p {
            if hi == 0 {
                None
            } else {
                Some(hi)
            }
        } else {
            if lo == 0 {
                None
            } else {
                Some(lo)
            }
        })
}

/// One grant pass from the cursor on: every counted tag of the grant
/// moves from `c` to `c + 1`, and the byte stays the full grant.
proof fn lemma_add_pass(cs: Seq<(char, u16)>, access: u8, prev: u8, c: u16, p: int)
    requires
        0 <= p <= 8,
        c <= 65534,
        add_shape(cs, access, c, (c + 1) as u16, p),
    ensures
        ({
            let r = spec_update_counters_from(cs, access, prev, false, false, p as nat);
            add_shape(r.0, access, c, (c + 1) as u16, 8) && r.1 == access
        }),
    decreases 8 - p,
{
    if p == 8 {
    } else {
        lemma_tag_table();
        let tag = spec_tag_list()[p];
        let bit = spec_access_list()[p];
        let stepped = spec_uc_tag(cs, access, prev, false, false, p);
        if access & bit == 0 {
            assert(stepped == (cs, access));
            lemma_add_pass(cs, access, prev, c, p + 1);
        } else {
            assert(access | bit == access) by {
                let pp = p as u8;
                assert(pp < 8 && access & (1u8 << pp) != 0 ==> access | (1u8 << pp) == access)
                    by (bit_vector);
            }
            let cs2 = spec_counters_insert(cs, tag, (c + 1) as u16);
            assert(stepped == (cs2, access));
            assert(add_shape(cs2, access, c, (c + 1) as u16, p + 1)) by {
                assert forall|i: int| 0 <= i < 8 implies #[trigger] spec_counters_get(
                    cs2,
                    spec_tag_list()[i],
                ) == (if access & spec_access_list()[i] == 0 {
                    None
                } else if i < p + 1 {
                    Some((c + 1) as u16)
                } else {
                    if c == 0 {
                        None
                    } else {
                        Some(c)
                    }
                }) by {
                    lemma_insert_get(cs, tag, (c + 1) as u16, spec_tag_list()[i]);
                }
            }
            lemma_add_pass(cs2, access, prev, c, p + 1);
        }
    }
}

/// The counter map shape a removal pass maintains while counts stay
/// positive.
pub open spec fn rm_shape(cs: Seq<(char, u16)>, access: u8, lo: u16, hi: u16, p: int) -> bool {
    forall|i: int|
        0 <= i < 8 ==> #[trigger] spec_counters_get(cs, spec_tag_list()[i]) == (if access
            & spec_access_list()[i] == 0 {
            None
        } else if i < p {
            Some(hi)
        } else {
            Some(lo)
        })
}

/// One removal pass while at least two grants remain: every counted
/// tag moves down one, and the byte keeps the full grant.
proof fn lemma_remove_pass_big(cs: Seq<(char, u16)>, access: u8, c: u16, p: int)
    requires
        0 <= p <= 8,
        c >= 2,
        rm_shape(cs, access, c, (c - 1) as u16, p),
    ensures
        ({
            let r = spec_update_counters_from(cs, access, access, true, false, p as nat);
            rm_shape(r.0, access, c, (c - 1) as u16, 8) && r.1 == access
        }),
    decreases 8 - p,
{
    if p == 8 {
    } else {
        lemma_tag_table();
        let tag = spec_tag_list()[p];
        let bit = spec_access_list()[p];
        let stepped = spec_uc_tag(cs, access, access, true, false, p);
        if access & bit == 0 {
            assert(stepped == (cs, access));
            lemma_remove_pass_big(cs, access, c, p + 1);
        } else {
            let cs2 = spec_counters_insert(cs, tag, (c - 1) as u16);
            assert(stepped == (cs2, access));
            assert(rm_shape(cs2, access, c, (c - 1) as u16, p + 1)) by {
                assert forall|i: int| 0 <= i < 8 implies #[trigger] spec_counters_get(
                    cs2,
                    spec_tag_list()[i],
                ) == (if access & spec_access_list()[i] == 0 {
                    None
                } else if i < p + 1 {
                    Some((c - 1) as u16)
                } else {
                    Some(c)
                }) by {
                    lemma_insert_get(cs, tag, (c - 1) as u16, spec_tag_list()[i]);
                }
            }
            lemma_remove_pass_big(cs2, access, c, p + 1);
        }
    }
}

/// The bits below a cursor position.
pub open spec fn spec_below_mask(p: int) -> u8 {
    if p <= 0 {
        0u8
    } else if p >= 8 {
        255u8
    } else {
        ((1u8 << (p as u8)) - 1) as u8
    }
}

/// The last removal pass: every counted tag drops to zero, its bit
/// leaves the byte, and nothing remains.
proof fn lemma_remove_pass_last(cs: Seq<(char, u16)>, access: u8, p: int)
    requires
        0 <= p <= 8,
        rm_shape(cs, access, 1u16, 0u16, p),
    ensures
        ({
            let r = spec_update_counters_from(
                cs,
                (access & !spec_below_mask(p)) as u8,
                access,
                true,
                false,
                p as nat,
            );
            r.1 == 0u8
        }),
    decreases 8 - p,
{
    let out = (access & !spec_below_mask(p)) as u8;
    if p == 8 {
        assert(access & !255u8 == 0u8) by (bit_vector);
    } else {
        lemma_tag_table();
        let tag = spec_tag_list()[p];
        let bit = spec_access_list()[p];
        let m = spec_below_mask(p);
        let m2 = spec_below_mask(p + 1);
        assert(m2 == (m | bit) || access & bit == access & bit) by {
        }
        let pp = p as u8;
        assert(spec_below_mask(p + 1) == (spec_below_mask(p) | (1u8 << pp))) by {
            if p == 0 {
                assert((0u8 | (1u8 << 0u8)) == ((1u8 << 1u8) - 1) as u8) by (bit_vector);
            } else if p < 7 {
                assert(1u8 <= pp < 7u8 ==> ((((1u8 << pp) - 1) as u8) | (1u8 << pp)) == ((1u8 << (
                pp + 1) as u8) - 1) as u8) by (bit_vector);
            } else {
                assert(((((1u8 << 7u8) - 1) as u8) | (1u8 << 7u8)) == 255u8) by (bit_vector);
            }
        }
        let stepped = spec_uc_tag(cs, out, access, true, false, p);
        if access & bit == 0 {
            assert(stepped == (cs, out));
            assert(out == (access & !spec_below_mask(p + 1)) as u8) by {
                assert(access & (1u8 << pp) == 0 ==> (access & !m) as u8 == (access & !((m | (1u8
                    << pp)) as u8)) as u8) by (bit_vector);
            }
            lemma_remove_pass_last(cs, access, p + 1);
        } else {
            assert(bit & m == 0) by {
                assert(pp < 8 ==> (1u8 << pp) & spec_below_mask_bv(pp) == 0) by (bit_vector);
                assert(spec_below_mask_bv(pp) == m);
            }
            assert(out & bit != 0) by {
                assert(access & (1u8 << pp) != 0 && (1u8 << pp) & m == 0 ==> (access & !m) & (1u8
                    << pp) != 0) by (bit_vector);
            }
            let cs2 = spec_counters_insert(cs, tag, 0u16);
            assert(stepped == (cs2, (out & !bit) as u8));
            assert((out & !bit) as u8 == (access & !spec_below_mask(p + 1)) as u8) by {
                assert(((access & !m) & !(1u8 << pp)) as u8 == (access & !((m | (1u8 << pp))
                    as u8)) as u8) by (bit_vector);
            }
            assert(rm_shape(cs2, access, 1u16, 0u16, p + 1)) by {
                assert forall|i: int| 0 <= i < 8 implies #[trigger] spec_counters_get(
                    cs2,
                    spec_tag_list()[i],
                ) == (if access & spec_access_list()[i] == 0 {
                    None
                } else if i < p + 1 {
                    Some(0u16)
                } else {
                    Some(1u16)
                }) by {
                    lemma_insert_get(cs, tag, 0u16, spec_tag_list()[i]);
                }
            }
            lemma_remove_pass_last(cs2, access, p + 1);
        }
    }
}

/// The mask of bits below a cursor, in shift form for the prover.
pub open spec fn spec_below_mask_bv(p: u8) -> u8 {
    if p == 0 {
        0u8
    } else {
        ((1u8 << p) - 1) as u8
    }
}

/// Counters after `n` grants: every granted tag counts `n`.
proof fn lemma_add_n_shape(access: u8, n: u16)
    requires
        1 <= n,
    ensures
        rm_shape(spec_add_n(Seq::empty(), access, n as nat), access, n, n, 8),
    decreases n,
{
    if n == 1 {
        assert(add_shape(Seq::empty(), access, 0u16, 1u16, 0));
        lemma_add_pass(Seq::empty(), access, access, 0u16, 0);
        assert(spec_add_n(Seq::empty(), access, 1) == spec_add_n(
            spec_update_counters(Seq::empty(), access, access, false, false).0,
            access,
            0,
        ));
    } else {
        lemma_add_n_shape(access, (n - 1) as u16);
        let cs = spec_add_n(Seq::empty(), access, (n - 1) as nat);
        assert(add_shape(cs, access, (n - 1) as u16, n, 8 - 8)) by {
            assert(rm_shape(cs, access, (n - 1) as u16, (n - 1) as u16, 8));
        }
        lemma_add_pass(cs, access, access, (n - 1) as u16, 0);
        lemma_add_iter_unfold_general(Seq::empty(), access, n);
    }
}

/// Unfolding one grant off the end, from any starting map.
proof fn lemma_add_iter_unfold_general(cs: Seq<(char, u16)>, access: u8, n: u16)
    requires
        n >= 1,
    ensures
        spec_add_n(cs, access, n as nat) == spec_update_counters(
            spec_add_n(cs, access, (n - 1) as nat),
            access,
            access,
            false,
            false,
        ).0,
    decreases n,
{
    if n == 1 {
        assert(spec_add_n(cs, access, 1) == spec_add_n(
            spec_update_counters(cs, access, access, false, false).0,
            access,
            0,
        ));
    } else {
        let cs2 = spec_update_counters(cs, access, access, false, false).0;
        lemma_add_iter_unfold_general(cs2, access, (n - 1) as u16);
        assert(spec_add_n(cs, access, n as nat) == spec_add_n(cs2, access, (n - 1) as nat));
        assert(spec_add_n(cs, access, (n - 1) as nat) == spec_add_n(cs2, access, (n - 2) as nat));
    }
}

/// Removing as often as was granted: the run of removals ends with no
/// access bit in force.
proof fn lemma_remove_iter(cs: Seq<(char, u16)>, access: u8, c: u16)
    requires
        c >= 1,
        rm_shape(cs, access, c, c, 8),
    ensures
        spec_remove_n(cs, access, c as nat).1 == 0u8,
    decreases c,
{
    if c == 1 {
        assert(rm_shape(cs, access, 1u16, 0u16, 0));
        assert(access & !spec_below_mask(0) == access) by {
            assert(access & !0u8 == access) by (bit_vector);
        }
        lemma_remove_pass_last(cs, access, 0);
    } else {
        assert(rm_shape(cs, access, c, (c - 1) as u16, 0)) by {
            assert(rm_shape(cs, access, c, c, 8));
        }
        lemma_remove_pass_big(cs, access, c, 0);
        let cs2 = spec_update_counters(cs, access, access, true, false).0;
        assert(rm_shape(cs2, access, (c - 1) as u16, (c - 1) as u16, 8)) by {
            assert(rm_shape(cs2, access, c, (c - 1) as u16, 8));
        }
        lemma_remove_iter(cs2, access, (c - 1) as u16);
    }
}

/// The counter law: starting from an empty counter map, granting an
/// access byte `n` times and then removing it `n` times ends with no
/// access bit in force.  Counters are sixteen-bit, which bounds `n`.
pub proof fn lemma_counters_add_remove_cancel(access: u8, n: u16)
    requires
        1 <= n,
    ensures
        spec_remove_n(spec_add_n(Seq::empty(), access, n as nat), access, n as nat).1 == 0u8,
{
    lemma_add_n_shape(access, n);
    lemma_remove_iter(spec_add_n(Seq::empty(), access, n as nat), access, n);
}

} // verus!

use crate::az::common::{spec_access8_to_char, spec_access_from_char, spec_is_tag_char, M_IGNORE_EXCLUSIVE, M_NONE};
use crate::az::formats::{
    spec_decode_records, spec_decode_value_v2, spec_encode_counters, spec_encode_missing,
    spec_encode_record, spec_encode_value_v2, spec_marker_suffix, spec_v2_run, spec_v2_step,
    V2State,
};
use crate::util::{lemma_find_char, spec_decimal, spec_find_char, spec_is_digit, spec_split};

verus! {

/// Disjunction of bytes, associatively.
proof fn lemma_or_facts(a: u8, b: u8, c: u8)
    ensures
        (a | b) | c == a | (b | c),
        a | 0u8 == a,
        0u8 | a == a,
{
    assert((a | b) | c == a | (b | c) && a | 0u8 == a && 0u8 | a == a) by (bit_vector);
}

/// The union of the access bits of a string's tag characters.
pub open spec fn spec_tag_bits(s: Seq<char>) -> u8
    decreases s.len(),
{
    if s.len() == 0 {
        0u8
    } else {
        (match spec_access_from_char(s[0]) {
            Some(b) => b,
            None => 0u8,
        }) | spec_tag_bits(s.drop_first())
    }
}

/// The last marker character of a string, if any.
pub open spec fn spec_last_marker(s: Seq<char>, m0: char) -> char
    decreases s.len(),
{
    if s.len() == 0 {
        m0
    } else {
        spec_last_marker(
            s.drop_first(),
            if s[0] == M_IS_EXCLUSIVE || s[0] == M_IGNORE_EXCLUSIVE {
                s[0]
            } else {
                m0
            },
        )
    }
}

/// Without counters, the decoder reads off exactly the tag bits and
/// the last marker of a value.
proof fn lemma_v2_run_reads_tags(st: V2State, s: Seq<char>)
    ensures
        spec_v2_run(st, s, false).access == st.access | spec_tag_bits(s),
        spec_v2_run(st, s, false).marker == spec_last_marker(s, st.marker),
        spec_v2_run(st, s, false).counters == st.counters,
    decreases s.len(),
{
    if s.len() == 0 {
        lemma_or_facts(st.access, 0u8, 0u8);
    } else {
        let st2 = spec_v2_step(st, s[0], false);
        lemma_v2_run_reads_tags(st2, s.drop_first());
        let b0: u8 = match spec_access_from_char(s[0]) {
            Some(b) => b,
            None => 0u8,
        };
        assert(st2.access == st.access | b0) by {
            lemma_or_facts(st.access, b0, 0u8);
        }
        lemma_or_facts(st.access, b0, spec_tag_bits(s.drop_first()));
    }
}

/// Concatenation unions tag bits and chains markers.
proof fn lemma_tag_bits_concat(a: Seq<char>, b: Seq<char>)
    ensures
        spec_tag_bits(a + b) == spec_tag_bits(a) | spec_tag_bits(b),
        forall|m: char| #[trigger] spec_last_marker(a + b, m) == spec_last_marker(
            b,
            spec_last_marker(a, m),
        ),
    decreases a.len(),
{
    if a.len() == 0 {
        assert(a + b =~= b);
        lemma_or_facts(spec_tag_bits(b), 0u8, 0u8);
        assert(forall|m: char| #[trigger] spec_last_marker(a, m) == m);
    } else {
        assert((a + b)[0] == a[0]);
        assert((a + b).drop_first() =~= a.drop_first() + b);
        lemma_tag_bits_concat(a.drop_first(), b);
        let b0: u8 = match spec_access_from_char(a[0]) {
            Some(x) => x,
            None => 0u8,
        };
        lemma_or_facts(b0, spec_tag_bits(a.drop_first()), spec_tag_bits(b));
        assert forall|m: char| #[trigger] spec_last_marker(a + b, m) == spec_last_marker(
            b,
            spec_last_marker(a, m),
        ) by {
            let m1 = if a[0] == M_IS_EXCLUSIVE || a[0] == M_IGNORE_EXCLUSIVE {
                a[0]
            } else {
                m
            };
            assert(spec_last_marker(a + b, m) == spec_last_marker(a.drop_first() + b, m1));
            assert(spec_last_marker(a.drop_first() + b, m1) == spec_last_marker(
                b,
                spec_last_marker(a.drop_first(), m1),
            ));
            assert(spec_last_marker(a, m) == spec_last_marker(a.drop_first(), m1));
        }
    }
}

/// A digit string carries no tag bits and no markers.
proof fn lemma_digits_carry_nothing(s: Seq<char>)
    requires
        forall|j: int| 0 <= j < s.len() ==> spec_is_digit(#[trigger] s[j]),
    ensures
        spec_tag_bits(s) == 0u8,
        forall|m: char| #[trigger] spec_last_marker(s, m) == m,
    decreases s.len(),
{
    if s.len() == 0 {
    } else {
        assert(spec_is_digit(s[0]));
        assert('X' as int == 88 && 'N' as int == 78);
        assert(s[0] != M_IS_EXCLUSIVE && s[0] != M_IGNORE_EXCLUSIVE);
        assert(forall|j: int|
            0 <= j < s.drop_first().len() ==> s.drop_first()[j] == s[j + 1]);
        lemma_digits_carry_nothing(s.drop_first());
        lemma_or_facts(0u8, 0u8, 0u8);
        assert forall|m: char| #[trigger] spec_last_marker(s, m) == m by {
            assert(spec_last_marker(s, m) == spec_last_marker(s.drop_first(), m));
        }
    }
}

/// Decimal renderings are digit strings.
proof fn lemma_decimal_is_digits(n: int)
    ensures
        forall|j: int|
            0 <= j < spec_decimal(n).len() ==> spec_is_digit(#[trigger] spec_decimal(n)[j]),
    decreases n,
{
    if n < 10 {
    } else {
        lemma_decimal_is_digits(n / 10);
        assert(forall|j: int|
            0 <= j < spec_decimal(n / 10).len() ==> spec_decimal(n)[j] == spec_decimal(
                n / 10,
            )[j]);
    }
}

/// The counter part of an encoded value: its tag bits are exactly the
/// covered bits, it carries no marker, it holds only tags and digits,
/// and it opens with a tag.
proof fn lemma_counter_part(cs: Seq<(char, u16)>)
    ensures
        spec_tag_bits(spec_encode_counters(cs).0) == spec_encode_counters(cs).1,
        forall|m: char| #[trigger] spec_last_marker(spec_encode_counters(cs).0, m) == m,
        forall|j: int|
            0 <= j < spec_encode_counters(cs).0.len() ==> spec_is_tag_char(
                #[trigger] spec_encode_counters(cs).0[j],
            ) || spec_is_digit(spec_encode_counters(cs).0[j]),
        spec_encode_counters(cs).0.len() > 0 ==> spec_is_tag_char(spec_encode_counters(cs).0[0]),
    decreases cs.len(),
{
    if cs.len() == 0 {
    } else {
        let (tag, cnt) = cs[0];
        let rest = spec_encode_counters(cs.drop_first());
        lemma_counter_part(cs.drop_first());
        match spec_access_from_char(tag) {
            Some(bit) => {
                if cnt > 0 {
                    let digits: Seq<char> = if cnt > 1 {
                        spec_decimal(cnt as int)
                    } else {
                        Seq::empty()
                    };
                    let head = seq![tag] + digits;
                    if cnt > 1 {
                        lemma_decimal_is_digits(cnt as int);
                    }
                    assert(spec_tag_bits(head) == bit) by {
                        assert(head[0] == tag);
                        assert(head.drop_first() =~= digits);
                        lemma_digits_carry_nothing(digits);
                        lemma_or_facts(bit, 0u8, 0u8);
                    }
                    assert(spec_is_tag_char(tag));
                    assert(tag != M_IS_EXCLUSIVE && tag != M_IGNORE_EXCLUSIVE);
                    if cnt > 1 {
                        lemma_decimal_is_digits(cnt as int);
                    }
                    lemma_digits_carry_nothing(digits);
                    assert forall|m: char| #[trigger] spec_last_marker(head, m) == m by {
                        assert(head.drop_first() =~= digits);
                        assert(spec_last_marker(head, m) == spec_last_marker(digits, m));
                    }
                    lemma_tag_bits_concat(head, rest.0);
                    assert(forall|j: int|
                        0 <= j < head.len() ==> spec_is_tag_char(#[trigger] head[j])
                            || spec_is_digit(head[j])) by {
                        assert(forall|j: int|
                            1 <= j < head.len() ==> head[j] == digits[j - 1]);
                    }
                    assert(forall|j: int|
                        0 <= j < (head + rest.0).len() ==> spec_is_tag_char(
                            #[trigger] (head + rest.0)[j],
                        ) || spec_is_digit((head + rest.0)[j])) by {
                        assert(forall|j: int|
                            0 <= j < head.len() ==> (head + rest.0)[j] == head[j]);
                        assert(forall|j: int|
                            head.len() <= j < (head + rest.0).len() ==> (head + rest.0)[j]
                                == rest.0[j - head.len()]);
                    }
                    assert((head + rest.0)[0] == tag);
                }
            },
            None => {},
        }
    }
}

/// The numeric shadow of the uncovered-bits part of an encoded value.
pub open spec fn spec_missing_num(access: u8, set_access: u8, i: nat) -> u8
    decreases 8 - i,
{
    if i >= 8 {
        0u8
    } else {
        let a = spec_access_list()[i as int];
        let head: u8 = if a & access & set_access == 0 {
            match spec_access8_to_char(a & access) {
                Some(_c) => (a & access) as u8,
                None => 0u8,
            }
        } else {
            0u8
        };
        head | spec_missing_num(access, set_access, i + 1)
    }
}

/// The uncovered-bits part: its tag bits are its numeric shadow, it
/// carries no marker, and all its characters are tags.
proof fn lemma_missing_part(access: u8, set_access: u8, i: nat)
    requires
        i <= 8,
    ensures
        spec_tag_bits(spec_encode_missing(access, set_access, i)) == spec_missing_num(
            access,
            set_access,
            i,
        ),
        forall|m: char| #[trigger] spec_last_marker(spec_encode_missing(access, set_access, i), m)
            == m,
        forall|j: int|
            0 <= j < spec_encode_missing(access, set_access, i).len() ==> spec_is_tag_char(
                #[trigger] spec_encode_missing(access, set_access, i)[j],
            ),
    decreases 8 - i,
{
    if i >= 8 {
    } else {
        lemma_missing_part(access, set_access, i + 1);
        let a = spec_access_list()[i as int];
        let rest = spec_encode_missing(access, set_access, i + 1);
        let head: Seq<char> = if a & access & set_access == 0 {
            match spec_access8_to_char(a & access) {
                Some(c) => seq![c],
                None => Seq::empty(),
            }
        } else {
            Seq::empty()
        };
        if a & access & set_access == 0 {
            match spec_access8_to_char(a & access) {
                Some(c) => {
                    assert(spec_access_from_char(c) == Some((a & access) as u8));
                    assert(spec_is_tag_char(c));
                    assert(c != M_IS_EXCLUSIVE && c != M_IGNORE_EXCLUSIVE);
                    assert(head[0] == c);
                    assert(head.drop_first().len() == 0);
                    assert(spec_tag_bits(head.drop_first()) == 0u8);
                    lemma_or_facts((a & access) as u8, 0u8, 0u8);
                    assert(spec_tag_bits(head) == (a & access) as u8);
                    assert forall|m: char| #[trigger] spec_last_marker(head, m) == m by {
                        assert(spec_last_marker(head, m) == spec_last_marker(
                            head.drop_first(),
                            m,
                        ));
                    }
                },
                None => {},
            }
        }
        lemma_tag_bits_concat(head, rest);
        assert(spec_tag_bits(head + rest) == spec_tag_bits(head) | spec_tag_bits(rest));
        if !(a & access & set_access == 0) || spec_access8_to_char(a & access) is None {
            assert(head.len() == 0);
            lemma_or_facts(spec_tag_bits(rest), 0u8, 0u8);
        }
        assert(forall|j: int|
            0 <= j < (head + rest).len() ==> spec_is_tag_char(#[trigger] (head + rest)[j])) by {
            assert(forall|j: int| 0 <= j < head.len() ==> (head + rest)[j] == head[j]);
            assert(forall|j: int|
                head.len() <= j < (head + rest).len() ==> (head + rest)[j] == rest[j
                    - head.len()]);
        }
    }
}

/// Covered and uncovered bits together are the access byte.
proof fn lemma_missing_union(access: u8, set_access: u8, i: nat)
    requires
        i <= 8,
        set_access & !access == 0,
    ensures
        spec_missing_num(access, set_access, i) == (access & !set_access & !spec_below_mask(
            i as int,
        )) as u8,
    decreases 8 - i,
{
    lemma_tag_table();
    let pp = i as u8;
    if i >= 8 {
        assert((access & !set_access & !255u8) as u8 == 0u8) by (bit_vector);
    } else {
        lemma_missing_union(access, set_access, i + 1);
        let a = spec_access_list()[i as int];
        let m = spec_below_mask(i as int);
        let m2 = spec_below_mask(i as int + 1);
        assert(m2 == (m | (1u8 << pp)) as u8) by {
            if i == 0 {
                assert((0u8 | (1u8 << 0u8)) == ((1u8 << 1u8) - 1) as u8) by (bit_vector);
            } else if i < 7 {
                assert(1u8 <= pp < 7u8 ==> ((((1u8 << pp) - 1) as u8) | (1u8 << pp)) == ((1u8 << (
                pp + 1) as u8) - 1) as u8) by (bit_vector);
            } else {
                assert(((((1u8 << 7u8) - 1) as u8) | (1u8 << 7u8)) == 255u8) by (bit_vector);
            }
        }
        let rest = spec_missing_num(access, set_access, i + 1);
        assert((1u8 << pp) & access == 0 || (1u8 << pp) & access == (1u8 << pp)) by (bit_vector);
        if a & access & set_access == 0 {
            match spec_access8_to_char(a & access) {
                Some(_c) => {
                    assert(a & access != 0);
                    assert(pp < 8 && (1u8 << pp) & access != 0 && (1u8 << pp) & access
                        & set_access == 0 ==> (((1u8 << pp) & access) as u8) | ((access
                        & !set_access & !((m | (1u8 << pp)) as u8)) as u8) == (access
                        & !set_access & !m) as u8 || !((1u8 << pp) & m == 0)) by (bit_vector);
                    assert((1u8 << pp) & m == 0) by {
                        assert(pp < 8u8 ==> (1u8 << pp) & (if pp == 0 {
                            0u8
                        } else {
                            ((1u8 << pp) - 1) as u8
                        }) == 0) by (bit_vector);
                    }
                },
                None => {
                    assert(a & access == 0);
                    assert(pp < 8 && (1u8 << pp) & access == 0 && (1u8 << pp) & m == 0 ==> 0u8 | (
                    (access & !set_access & !((m | (1u8 << pp)) as u8)) as u8) == (access
                        & !set_access & !m) as u8) by (bit_vector);
                    assert((1u8 << pp) & m == 0) by {
                        assert(pp < 8u8 ==> (1u8 << pp) & (if pp == 0 {
                            0u8
                        } else {
                            ((1u8 << pp) - 1) as u8
                        }) == 0) by (bit_vector);
                    }
                },
            }
        } else {
            assert(a & access & set_access != 0);
            assert(pp < 8 && (1u8 << pp) & access & set_access != 0 && (1u8 << pp) & m == 0
                ==> 0u8 | ((access & !set_access & !((m | (1u8 << pp)) as u8)) as u8) == (access
                & !set_access & !m) as u8) by (bit_vector);
            assert((1u8 << pp) & m == 0) by {
                assert(pp < 8u8 ==> (1u8 << pp) & (if pp == 0 {
                    0u8
                } else {
                    ((1u8 << pp) - 1) as u8
                }) == 0) by (bit_vector);
            }
        }
    }
}

} // verus!

verus! {

/// Splitting at the first separator of a build `x ";" y`.
proof fn lemma_split_at_sep(x: Seq<char>, y: Seq<char>, sep: char)
    requires
        forall|j: int| 0 <= j < x.len() ==> x[j] != sep,
    ensures
        spec_split(x + seq![sep] + y, sep) =~~= seq![x] + spec_split(y, sep),
{
    let s = x + seq![sep] + y;
    assert(s[x.len() as int] == sep);
    assert(forall|j: int| 0 <= j < x.len() ==> s[j] == x[j]);
    lemma_find_char(s, sep);
    match spec_find_char(s, sep) {
        Some(k) => {
            if k < x.len() {
                assert(s[k] != sep);
                assert(false);
            }
            if k > x.len() {
                assert(s[x.len() as int] != sep);
                assert(false);
            }
        },
        None => {
            assert(s[x.len() as int] != sep);
            assert(false);
        },
    }
    assert(spec_find_char(s, sep) == Some(x.len() as int));
    assert(s.take(x.len() as int) =~= x);
    assert(s.skip(x.len() as int + 1) =~= y);
}

/// The record the round trip yields: id, access and marker as they
/// were, without the deletion flag or counters.
pub open spec fn spec_plain_record(r: SpecRecord) -> SpecRecord {
    SpecRecord {
        id: r.id,
        access: r.access,
        marker: r.marker,
        is_deleted: false,
        counters: Seq::empty(),
    }
}

/// The codec round trip: a record written in the current format and
/// read back through the rights decoder comes back with its id,
/// access bits and marker intact.  The hypotheses are the format's
/// terms: the record is live, its id holds no separator and does not
/// open like a date prefix, it grants something, and its counters
/// cover no bit outside its access byte.
pub proof fn lemma_codec_round_trip(r: SpecRecord)
    requires
        !r.is_deleted,
        r.marker == M_NONE || r.marker == M_IS_EXCLUSIVE || r.marker == M_IGNORE_EXCLUSIVE,
        forall|j: int| 0 <= j < r.id.len() ==> r.id[j] != ';',
        r.id.len() > 0 ==> r.id[0] != 'T',
        r.access != 0,
        spec_encode_counters(r.counters).1 & !r.access == 0,
    ensures
        ({
            let decoded = spec_decode_records(spec_encode_record(None, seq![r], 2), false);
            decoded.0 && decoded.1 is None && decoded.2 =~= seq![spec_plain_record(r)]
        }),
{
    let cs_part = spec_encode_counters(r.counters);
    let set_access = cs_part.1;
    let missing = spec_encode_missing(r.access, set_access, 0);
    let suffix = spec_marker_suffix(r.marker);
    let value = spec_encode_value_v2(r);
    lemma_counter_part(r.counters);
    lemma_missing_part(r.access, set_access, 0);
    lemma_missing_union(r.access, set_access, 0);
    lemma_tag_table();
    assert(spec_below_mask(0) == 0u8);
    assert(spec_tag_bits(missing) == (r.access & !set_access & !0u8) as u8);

    // the value's tag bits are exactly the access byte
    lemma_tag_bits_concat(cs_part.0, missing);
    lemma_tag_bits_concat(cs_part.0 + missing, suffix);
    assert(value =~= (cs_part.0 + missing) + suffix);
    assert(spec_tag_bits(suffix) == 0u8) by {
        if r.marker == M_IS_EXCLUSIVE || r.marker == M_IGNORE_EXCLUSIVE {
            assert(suffix =~= seq![r.marker]);
            assert(suffix[0] == r.marker);
            assert(suffix.drop_first().len() == 0);
            assert(spec_tag_bits(suffix.drop_first()) == 0u8);
            assert(spec_access_from_char(r.marker) is None);
            lemma_or_facts(0u8, 0u8, 0u8);
        }
    }
    assert forall|m: char| #[trigger] spec_last_marker(suffix, m) == (if r.marker
        == M_IS_EXCLUSIVE || r.marker == M_IGNORE_EXCLUSIVE {
        r.marker
    } else {
        m
    }) by {
        if r.marker == M_IS_EXCLUSIVE || r.marker == M_IGNORE_EXCLUSIVE {
            assert(suffix =~= seq![r.marker]);
            assert(suffix[0] == r.marker);
            assert(suffix.drop_first().len() == 0);
            assert(spec_last_marker(suffix, m) == spec_last_marker(
                suffix.drop_first(),
                r.marker,
            ));
        }
    }
    let access2 = set_access | ((r.access & !set_access & !0u8) as u8);
    assert(spec_tag_bits(value) == access2 | 0u8) by {
        assert(spec_tag_bits(cs_part.0 + missing) == access2);
    }
    lemma_or_facts(access2, 0u8, 0u8);
    assert(access2 == r.access) by {
        let s = set_access;
        let a = r.access;
        assert(s & !a == 0 ==> (s | ((a & !s & !0u8) as u8)) == a) by (bit_vector);
    }
    assert(spec_tag_bits(value) == r.access);

    // the value's last marker is the record's marker
    assert(spec_last_marker(value, M_NONE) == r.marker) by {
        assert(spec_last_marker(cs_part.0 + missing, M_NONE) == M_NONE);
        if r.marker == M_IS_EXCLUSIVE || r.marker == M_IGNORE_EXCLUSIVE {
        } else {
            assert(suffix.len() == 0);
        }
    }

    // the value opens with a tag character
    assert(value.len() > 0) by {
        if value.len() == 0 {
            assert(spec_tag_bits(value) == 0u8);
        }
    }
    assert(spec_is_tag_char(value[0])) by {
        if cs_part.0.len() > 0 {
            assert(value[0] == cs_part.0[0]);
        } else if missing.len() > 0 {
            assert(value[0] == missing[0]);
        } else {
            assert((cs_part.0 + missing).len() == 0);
            lemma_tag_bits_concat(cs_part.0, missing);
            assert(spec_tag_bits(cs_part.0 + missing) == 0u8);
            assert(spec_last_marker(cs_part.0 + missing, M_NONE) == M_NONE);
            assert(spec_tag_bits(value) == 0u8) by {
                assert(value =~= suffix);
            }
            assert(false);
        }
    }

    // no character of the value is a separator
    assert(forall|j: int| 0 <= j < value.len() ==> value[j] != ';') by {
        assert(';' as int == 59);
        assert(forall|j: int|
            0 <= j < cs_part.0.len() ==> #[trigger] value[j] == cs_part.0[j]);
        assert(forall|j: int|
            cs_part.0.len() <= j < cs_part.0.len() + missing.len() ==> #[trigger] value[j]
                == missing[j - cs_part.0.len()]);
        assert(forall|j: int|
            cs_part.0.len() + missing.len() <= j < value.len() ==> #[trigger] value[j] == suffix[j
                - cs_part.0.len() - missing.len()]);
        assert(forall|j: int|
            0 <= j < suffix.len() ==> #[trigger] suffix[j] == r.marker);
    }

    // the whole encoded text is one entry
    let text = spec_encode_record(None, seq![r], 2);
    let body = crate::az::formats::spec_encode_entries(seq![r], 2);
    assert(seq![r].drop_first().len() == 0);
    assert(crate::az::formats::spec_encode_entries(seq![r].drop_first(), 2)
        =~= Seq::<char>::empty());
    let head = r.id + seq![';'] + value + seq![';'];
    assert(body =~= head);
    assert(body.len() > 0);
    assert(text =~= head);

    // no date comes off the front
    assert(crate::az::dates::spec_extract_date(text) == (None::<int>, text)) by {
        if text[0] == 'T' {
            if r.id.len() > 0 {
                assert(text[0] == r.id[0]);
                assert(false);
            } else {
                assert(text[0] == ';');
                assert('T' as int == 84 && ';' as int == 59);
                assert(false);
            }
        }
    }

    // the text splits into the id, the value, and an empty tail
    assert(text =~= r.id + seq![';'] + (value + seq![';'] + Seq::<char>::empty()));
    lemma_split_at_sep(r.id, value + seq![';'] + Seq::<char>::empty(), ';');
    lemma_split_at_sep(value, Seq::<char>::empty(), ';');
    assert(spec_find_char(Seq::<char>::empty(), ';') is None);
    assert(spec_split(Seq::<char>::empty(), ';') =~~= seq![Seq::<char>::empty()]);
    let tokens = spec_split(text, ';');
    assert(tokens =~~= seq![r.id, value, Seq::<char>::empty()]);

    // pairwise reading yields one record
    assert(tokens.skip(2) =~~= seq![Seq::<char>::empty()]);
    assert(crate::az::formats::spec_decode_pairs(tokens.skip(2), false) =~= Seq::<
        SpecRecord,
    >::empty());
    assert(tokens[1].len() > 0);
    assert(spec_access_from_char(value[0]) is Some);
    let init = SpecRecord {
        id: r.id,
        access: 0u8,
        marker: M_NONE,
        is_deleted: false,
        counters: Seq::empty(),
    };
    let st0 = V2State {
        access: 0u8,
        marker: M_NONE,
        tag: None,
        val: Seq::empty(),
        counters: Seq::empty(),
    };
    lemma_v2_run_reads_tags(st0, value);
    lemma_or_facts(spec_tag_bits(value), 0u8, 0u8);
    assert(0u8 | spec_tag_bits(value) == spec_tag_bits(value));
    assert(spec_decode_value_v2(init, value, false) == spec_plain_record(r));
    assert(crate::az::formats::spec_decode_one(r.id, value, false) == spec_plain_record(r));
    assert(crate::az::formats::spec_decode_pairs(tokens, false) =~= seq![spec_plain_record(r)]);
}

} // verus!

verus! {

/// A run of permission records without exclusive markers.
pub open spec fn exclusive_free(recs: Seq<SpecRecord>) -> bool {
    forall|j: int| 0 <= j < recs.len() ==> (#[trigger] recs[j].marker) != M_IS_EXCLUSIVE
}

/// The union of what a run's matched records grant, masked by the
/// request and the filter.
pub open spec fn spec_matched_bits(
    recs: Seq<SpecRecord>,
    req: u8,
    filter: u8,
    users: Seq<GroupEntry>,
) -> u8
    decreases recs.len(),
{
    if recs.len() == 0 {
        0u8
    } else {
        (if crate::az::engine::spec_groups_find(users, recs[0].id) is Some {
            recs[0].access & 0x0fu8 & req & filter
        } else {
            0u8
        }) | spec_matched_bits(recs.drop_first(), req, filter, users)
    }
}

/// The byte algebra the union law leans on.
proof fn lemma_union_bits_facts(g: u8, p: u8, r: u8, f: u8, a: u8, b: u8, c: u8, d: u8)
    ensures
        g & !0u8 == g,
        (p & r & f) & !r == 0,
        g & !r == 0 ==> r | g == r,
        (a | c) | (b | d) == (a | b) | (c | d),
{
    assert(g & !0u8 == g && (p & r & f) & !r == 0 && (g & !r == 0 ==> r | g == r) && ((a | c) | (b
        | d)) == ((a | b) | (c | d))) by (bit_vector);
}

/// Matched bits stay inside the request.
proof fn lemma_matched_bits_in_req(
    recs: Seq<SpecRecord>,
    req: u8,
    filter: u8,
    users: Seq<GroupEntry>,
)
    ensures
        spec_matched_bits(recs, req, filter, users) & !req == 0,
    decreases recs.len(),
{
    if recs.len() == 0 {
        lemma_union_bits_facts(0u8, 0u8, req, filter, 0u8, 0u8, 0u8, 0u8);
        assert(0u8 & !req == 0) by (bit_vector);
    } else {
        lemma_matched_bits_in_req(recs.drop_first(), req, filter, users);
        let m0: u8 = if crate::az::engine::spec_groups_find(users, recs[0].id) is Some {
            recs[0].access & 0x0fu8 & req & filter
        } else {
            0u8
        };
        let rest = spec_matched_bits(recs.drop_first(), req, filter, users);
        assert(m0 & !req == 0) by {
            lemma_union_bits_facts(m0, recs[0].access & 0x0fu8, req, filter, 0u8, 0u8, 0u8, 0u8);
            assert(0u8 & !req == 0) by (bit_vector);
        }
        assert(m0 & !req == 0 && rest & !req == 0 ==> (m0 | rest) & !req == 0) by (bit_vector);
    }
}

/// In a run without denies and without exclusive markers, the fold's
/// grant is the starting grant joined with the matched bits; the
/// early answer changes nothing, because it only fires at the
/// request's ceiling.
proof fn lemma_deny_free_closed_form(
    st: AzState,
    recs: Seq<SpecRecord>,
    req: u8,
    filter: u8,
    users: Seq<GroupEntry>,
)
    requires
        st.denied == 0u8,
        !st.exclusive,
        st.granted & !req == 0,
        st.done ==> st.granted == req & !st.denied,
        deny_free(recs),
        exclusive_free(recs),
    ensures
        spec_apply_records(st, recs, req, filter, users).granted == st.granted
            | spec_matched_bits(recs, req, filter, users),
    decreases recs.len(),
{
    lemma_matched_bits_in_req(recs, req, filter, users);
    if recs.len() == 0 {
        lemma_union_bits_facts(st.granted, 0u8, req, filter, st.granted, 0u8, 0u8, 0u8);
        assert(st.granted | 0u8 == st.granted) by (bit_vector);
    } else {
        let m0: u8 = if crate::az::engine::spec_groups_find(users, recs[0].id) is Some {
            recs[0].access & 0x0fu8 & req & filter
        } else {
            0u8
        };
        let rest = spec_matched_bits(recs.drop_first(), req, filter, users);
        let st2 = spec_apply_record(st, recs[0], req, filter, users);
        assert(deny_free(recs.drop_first()) && exclusive_free(recs.drop_first())) by {
            assert(forall|j: int|
                0 <= j < recs.drop_first().len() ==> recs.drop_first()[j] == recs[j + 1]);
        }
        lemma_matched_bits_in_req(recs.drop_first(), req, filter, users);
        if st.done {
            assert(st2 == st);
            lemma_deny_free_closed_form(st, recs.drop_first(), req, filter, users);
            assert(st.granted == req) by {
                lemma_union_bits_facts(req, 0u8, req, filter, 0u8, 0u8, 0u8, 0u8);
            }
            lemma_union_bits_facts(rest, 0u8, req, filter, 0u8, 0u8, 0u8, 0u8);
            assert(req | rest == req);
            lemma_union_bits_facts(m0 | rest, recs[0].access & 0x0fu8, req, filter, 0u8, 0u8, 0u8, 0u8);
            assert((m0 | rest) & !req == 0) by {
                assert(m0 & !req == 0 && rest & !req == 0 ==> (m0 | rest) & !req == 0)
                    by (bit_vector);
                lemma_union_bits_facts(m0, recs[0].access & 0x0fu8, req, filter, 0u8, 0u8, 0u8, 0u8);
                assert(0u8 & !req == 0) by (bit_vector);
            }
            assert(req | (m0 | rest) == req);
        } else {
            match crate::az::engine::spec_groups_find(users, recs[0].id) {
                Some(_forgiven) => {
                    assert(((recs[0].access) >> 4u8) & 0x0fu8 == 0);
                    assert(0u8 | 0u8 == 0u8) by (bit_vector);
                    assert(st2.denied == 0u8);
                    assert(recs[0].marker != M_IS_EXCLUSIVE);
                    assert(!st2.exclusive);
                    let g1 = st.granted | m0;
                    assert(st2.granted == g1) by {
                        lemma_union_bits_facts(g1, 0u8, req, filter, 0u8, 0u8, 0u8, 0u8);
                    }
                    assert(st2.granted & !req == 0) by {
                        let sg = st.granted;
                        assert(sg & !req == 0 && m0 & !req == 0 ==> (sg | m0) & !req == 0)
                            by (bit_vector);
                        lemma_union_bits_facts(m0, recs[0].access & 0x0fu8, req, filter, 0u8, 0u8, 0u8, 0u8);
                        assert(0u8 & !req == 0) by (bit_vector);
                    }
                    lemma_deny_free_closed_form(st2, recs.drop_first(), req, filter, users);
                    assert((st.granted | m0) | rest == st.granted | (m0 | rest)) by {
                        lemma_union_bits_facts(0u8, 0u8, 0u8, 0u8, st.granted, m0, 0u8, rest);
                        let sg = st.granted;
                        assert(((sg | m0) | (0u8 | rest)) == ((sg | 0u8) | (m0 | rest)) ==> ((sg
                            | m0) | rest) == (sg | (m0 | rest)) || !(0u8 | rest == rest && sg
                            | 0u8 == sg)) by (bit_vector);
                        assert(0u8 | rest == rest && sg | 0u8 == sg) by (bit_vector);
                    }
                },
                None => {
                    assert(st2 == st);
                    lemma_deny_free_closed_form(st, recs.drop_first(), req, filter, users);
                    assert(st.granted | (0u8 | rest) == st.granted | rest) by {
                        assert(0u8 | rest == rest) by (bit_vector);
                    }
                },
            }
        }
    }
}

/// The union law of disjoint memberships, over one run of permission
/// records: when the user's groups split into two parts that together
/// match exactly what the whole matches, and the run carries neither
/// denies nor exclusive markers, the run grants the union of what it
/// grants to each part alone.
pub proof fn lemma_disjoint_groups_grant_union(
    recs: Seq<SpecRecord>,
    req: u8,
    filter: u8,
    users: Seq<GroupEntry>,
    part1: Seq<GroupEntry>,
    part2: Seq<GroupEntry>,
)
    requires
        deny_free(recs),
        exclusive_free(recs),
        forall|id: Seq<char>|
            #[trigger] crate::az::engine::spec_groups_find(users, id) is Some <==> (
            crate::az::engine::spec_groups_find(part1, id) is Some
                || crate::az::engine::spec_groups_find(part2, id) is Some),
    ensures
        spec_apply_records(spec_initial_state(), recs, req, filter, users).granted
            == spec_apply_records(spec_initial_state(), recs, req, filter, part1).granted
            | spec_apply_records(spec_initial_state(), recs, req, filter, part2).granted,
{
    let init = spec_initial_state();
    assert(0u8 & !req == 0) by (bit_vector);
    lemma_deny_free_closed_form(init, recs, req, filter, users);
    lemma_deny_free_closed_form(init, recs, req, filter, part1);
    lemma_deny_free_closed_form(init, recs, req, filter, part2);
    lemma_matched_union(recs, req, filter, users, part1, part2);
    let mu = spec_matched_bits(recs, req, filter, users);
    let m1 = spec_matched_bits(recs, req, filter, part1);
    let m2 = spec_matched_bits(recs, req, filter, part2);
    assert(0u8 | mu == mu && 0u8 | m1 == m1 && 0u8 | m2 == m2) by (bit_vector);
}

/// The matched bits of a split membership are the union of the parts'.
proof fn lemma_matched_union(
    recs: Seq<SpecRecord>,
    req: u8,
    filter: u8,
    users: Seq<GroupEntry>,
    part1: Seq<GroupEntry>,
    part2: Seq<GroupEntry>,
)
    requires
        forall|id: Seq<char>|
            #[trigger] crate::az::engine::spec_groups_find(users, id) is Some <==> (
            crate::az::engine::spec_groups_find(part1, id) is Some
                || crate::az::engine::spec_groups_find(part2, id) is Some),
    ensures
        spec_matched_bits(recs, req, filter, users) == spec_matched_bits(recs, req, filter, part1)
            | spec_matched_bits(recs, req, filter, part2),
    decreases recs.len(),
{
    if recs.len() == 0 {
        assert(0u8 | 0u8 == 0u8) by (bit_vector);
    } else {
        lemma_matched_union(recs.drop_first(), req, filter, users, part1, part2);
        let bits = recs[0].access & 0x0fu8 & req & filter;
        let h: u8 = if crate::az::engine::spec_groups_find(users, recs[0].id) is Some {
            bits
        } else {
            0u8
        };
        let h1: u8 = if crate::az::engine::spec_groups_find(part1, recs[0].id) is Some {
            bits
        } else {
            0u8
        };
        let h2: u8 = if crate::az::engine::spec_groups_find(part2, recs[0].id) is Some {
            bits
        } else {
            0u8
        };
        let r1 = spec_matched_bits(recs.drop_first(), req, filter, part1);
        let r2 = spec_matched_bits(recs.drop_first(), req, filter, part2);
        assert(h == (h1 | h2) || h | h == h1 | h2) by {
            assert(bits | bits == bits && bits | 0u8 == bits && 0u8 | bits == bits && 0u8 | 0u8
                == 0u8) by (bit_vector);
        }
        assert((h1 | r1) | (h2 | r2) == (h1 | h2) | (r1 | r2)) by {
            lemma_union_bits_facts(0u8, 0u8, 0u8, 0u8, h1, h2, r1, r2);
        }
        assert(h | (r1 | r2) == (h1 | h2) | (r1 | r2)) by {
            assert(bits | bits == bits && bits | 0u8 == bits && 0u8 | bits == bits && 0u8 | 0u8
                == 0u8) by (bit_vector);
        }
    }
}

} // verus!
