//! The authorization engine.
//!
//! Given a resource, a user and a requested access byte, the engine
//! expands the membership graph on both sides, folds the permission
//! and prohibition records of every resource-side id over the user's
//! groups, applies the per-resource filter, and returns the granted
//! permit bits.  The whole decision is a function of the store's
//! contents and the calendar day, stated by [`spec_authorize`].
//!
//! The four key namespaces are one-character prefixes: `P` carries
//! permissions, `M` memberships, `F` filters and `N` prohibitions.

use vstd::prelude::*;
use crate::az::common::{Storage, StorageError, Trace, M_IGNORE_EXCLUSIVE, M_IS_EXCLUSIVE};
use crate::az::dates::spec_expired;
use crate::az::formats::{
    decode_filter, decode_rec_to_rights, spec_decode_filter, spec_decode_records,
};
use crate::az::records::{recs_view, ACLRecord, SpecRecord};
use crate::util::push_char;

verus! {

/// Upper bound on group expansions per side of one decision.  The
/// visited set already stops cycles; the bound additionally stops a
/// store whose membership graph fans out without end.
pub const EXPAND_LIMIT: u64 = 1000000;

/// The records a stored value contributes at day `today`: none when
/// the key is absent or its date has passed.
pub open spec fn spec_live_records(
    store: Map<Seq<char>, Seq<char>>,
    today: int,
    key: Seq<char>,
    with_count: bool,
) -> Seq<SpecRecord> {
    if !store.contains_key(key) {
        Seq::empty()
    } else {
        let decoded = spec_decode_records(store[key], with_count);
        if spec_expired(decoded.1, today) {
            Seq::empty()
        } else {
            decoded.2
        }
    }
}

/// A group reached during expansion, with the flag saying whether the
/// path to it forgives downstream exclusivity.
pub struct GroupEntry {
    pub id: Seq<char>,
    pub ignore_exclusive: bool,
}

/// A reached group, in executable form.
pub struct GroupRec {
    pub id: String,
    pub ignore_exclusive: bool,
}

impl View for GroupRec {
    type V = GroupEntry;

    open spec fn view(&self) -> GroupEntry {
        GroupEntry { id: self.id@, ignore_exclusive: self.ignore_exclusive }
    }
}

/// The views of a sequence of reached groups.
pub open spec fn groups_view(v: Seq<GroupRec>) -> Seq<GroupEntry> {
    v.map_values(|g: GroupRec| g@)
}

/// The flag under which an id was first reached, if it was.
pub open spec fn spec_groups_find(gs: Seq<GroupEntry>, id: Seq<char>) -> Option<bool>
    decreases gs.len(),
{
    if gs.len() == 0 {
        None
    } else if gs[0].id == id {
        Some(gs[0].ignore_exclusive)
    } else {
        spec_groups_find(gs.drop_first(), id)
    }
}

/// The membership key of an id.
pub open spec fn spec_membership_key(id: Seq<char>) -> Seq<char> {
    seq!['M'] + id
}

/// The permissions key of an id.
pub open spec fn spec_permission_key(id: Seq<char>) -> Seq<char> {
    seq!['P'] + id
}

/// The prohibitions key of an id.
pub open spec fn spec_prohibition_key(id: Seq<char>) -> Seq<char> {
    seq!['N'] + id
}

/// The filter key of an id.
pub open spec fn spec_filter_key(id: Seq<char>) -> Seq<char> {
    seq!['F'] + id
}

/// The children an expanded id contributes to the worklist: each
/// membership entry, inheriting the path's forgiveness or its own
/// `IGNORE_EXCLUSIVE` marker.
pub open spec fn spec_children(
    store: Map<Seq<char>, Seq<char>>,
    today: int,
    head: GroupEntry,
) -> Seq<GroupEntry> {
    spec_live_records(store, today, spec_membership_key(head.id), false).map_values(
        |r: SpecRecord|
            GroupEntry {
                id: r.id,
                ignore_exclusive: head.ignore_exclusive || r.marker == M_IGNORE_EXCLUSIVE,
            },
    )
}

/// Breadth-first expansion of the membership graph: ids leave the
/// worklist in order, each id is expanded at most once, and the
/// visited list records first visits in order.
pub open spec fn spec_expand(
    store: Map<Seq<char>, Seq<char>>,
    today: int,
    worklist: Seq<GroupEntry>,
    visited: Seq<GroupEntry>,
    fuel: nat,
) -> Seq<GroupEntry>
    decreases fuel, worklist.len(),
{
    if worklist.len() == 0 {
        visited
    } else {
        let head = worklist[0];
        if spec_groups_find(visited, head.id) is Some {
            spec_expand(store, today, worklist.drop_first(), visited, fuel)
        } else if fuel == 0 {
            visited
        } else {
            spec_expand(
                store,
                today,
                worklist.drop_first() + spec_children(store, today, head),
                visited.push(head),
                (fuel - 1) as nat,
            )
        }
    }
}

/// The groups of one side of a decision: the seed itself and every
/// group reachable from it over membership records.
pub open spec fn spec_side_groups(
    store: Map<Seq<char>, Seq<char>>,
    today: int,
    seed: Seq<char>,
) -> Seq<GroupEntry> {
    spec_expand(
        store,
        today,
        seq![GroupEntry { id: seed, ignore_exclusive: false }],
        Seq::empty(),
        EXPAND_LIMIT as nat,
    )
}

/// The filter mask of a resource: the access field of its filter
/// record, or every bit when no live filter exists.
pub open spec fn spec_filter_mask(
    store: Map<Seq<char>, Seq<char>>,
    today: int,
    uri: Seq<char>,
) -> u8 {
    let key = spec_filter_key(uri);
    if !store.contains_key(key) {
        0xffu8
    } else {
        let decoded = spec_decode_filter(store[key]);
        if spec_expired(decoded.1, today) {
            0xffu8
        } else {
            match decoded.0 {
                Some(r) => r.access,
                None => 0xffu8,
            }
        }
    }
}

/// Running state of the permission fold.
pub struct AzState {
    pub granted: u8,
    pub denied: u8,
    pub exclusive: bool,
    pub done: bool,
}

/// The state every decision starts from.
pub open spec fn spec_initial_state() -> AzState {
    AzState { granted: 0u8, denied: 0u8, exclusive: false, done: false }
}

/// One permission record: a record whose grantee is among the user's
/// groups contributes its permit bits, masked by the request, the
/// filter and the denials, and adds its deny bits to the denial mask.
/// An exclusive record over a non-forgiving path replaces the grant
/// so far; after it, no record adds permits.  Once the grant matches
/// everything still grantable, the fold is done: the engine answers
/// early.
pub open spec fn spec_apply_record(
    st: AzState,
    rec: SpecRecord,
    req: u8,
    filter: u8,
    users: Seq<GroupEntry>,
) -> AzState {
    if st.done {
        st
    } else {
        match spec_groups_find(users, rec.id) {
            None => st,
            Some(forgiven) => {
                let permit = rec.access & 0x0fu8;
                let deny = (rec.access >> 4u8) & 0x0fu8;
                let denied2 = st.denied | deny;
                let excl_here = rec.marker == M_IS_EXCLUSIVE && !forgiven;
                let g1 = if st.exclusive {
                    st.granted
                } else if excl_here {
                    permit & req & filter
                } else {
                    st.granted | (permit & req & filter)
                };
                let granted2 = g1 & !denied2;
                AzState {
                    granted: granted2,
                    denied: denied2,
                    exclusive: st.exclusive || excl_here,
                    done: granted2 == req & !denied2,
                }
            },
        }
    }
}

/// One prohibition record: every access bit it names joins the denial
/// mask of a matched grantee.
pub open spec fn spec_apply_neg_record(
    st: AzState,
    rec: SpecRecord,
    req: u8,
    users: Seq<GroupEntry>,
) -> AzState {
    if st.done {
        st
    } else if spec_groups_find(users, rec.id) is Some {
        let denied2 = st.denied | (rec.access & 0x0fu8) | ((rec.access >> 4u8) & 0x0fu8);
        let granted2 = st.granted & !denied2;
        AzState {
            granted: granted2,
            denied: denied2,
            exclusive: st.exclusive,
            done: granted2 == req & !denied2,
        }
    } else {
        st
    }
}

/// A run of permission records, in stored order.
pub open spec fn spec_apply_records(
    st: AzState,
    recs: Seq<SpecRecord>,
    req: u8,
    filter: u8,
    users: Seq<GroupEntry>,
) -> AzState
    decreases recs.len(),
{
    if recs.len() == 0 {
        st
    } else {
        spec_apply_records(
            spec_apply_record(st, recs[0], req, filter, users),
            recs.drop_first(),
            req,
            filter,
            users,
        )
    }
}

/// A run of prohibition records, in stored order.
pub open spec fn spec_apply_neg_records(
    st: AzState,
    recs: Seq<SpecRecord>,
    req: u8,
    users: Seq<GroupEntry>,
) -> AzState
    decreases recs.len(),
{
    if recs.len() == 0 {
        st
    } else {
        spec_apply_neg_records(
            spec_apply_neg_record(st, recs[0], req, users),
            recs.drop_first(),
            req,
            users,
        )
    }
}

/// One resource-side id: its permission records, then its
/// prohibition records.
pub open spec fn spec_apply_rid(
    st: AzState,
    store: Map<Seq<char>, Seq<char>>,
    today: int,
    rid: Seq<char>,
    req: u8,
    filter: u8,
    users: Seq<GroupEntry>,
) -> AzState {
    let st1 = spec_apply_records(
        st,
        spec_live_records(store, today, spec_permission_key(rid), false),
        req,
        filter,
        users,
    );
    spec_apply_neg_records(
        st1,
        spec_live_records(store, today, spec_prohibition_key(rid), false),
        req,
        users,
    )
}

/// All resource-side ids, in discovery order.
pub open spec fn spec_apply_all(
    st: AzState,
    store: Map<Seq<char>, Seq<char>>,
    today: int,
    rids: Seq<GroupEntry>,
    req: u8,
    filter: u8,
    users: Seq<GroupEntry>,
) -> AzState
    decreases rids.len(),
{
    if rids.len() == 0 {
        st
    } else {
        spec_apply_all(
            spec_apply_rid(st, store, today, rids[0].id, req, filter, users),
            store,
            today,
            rids.drop_first(),
            req,
            filter,
            users,
        )
    }
}

/// The decision: the granted permit bits for a query against a store
/// at a calendar day.
pub open spec fn spec_authorize(
    store: Map<Seq<char>, Seq<char>>,
    today: int,
    uri: Seq<char>,
    user: Seq<char>,
    req: u8,
) -> u8 {
    let filter = spec_filter_mask(store, today, uri);
    let users = spec_side_groups(store, today, user);
    let rids = spec_side_groups(store, today, uri);
    spec_apply_all(spec_initial_state(), store, today, rids, req, filter, users).granted
}

} // verus!

verus! {

/// A namespace key: the prefix character, then the id.
fn make_key(prefix: char, id: &str) -> (r: String)
    ensures
        r@ == seq![prefix] + id@,
{
    let mut k = String::new();
    push_char(&mut k, prefix);
    k.append(id);
    proof {
        assert(k@ =~= seq![prefix] + id@);
    }
    k
}

/// Looks an id up among the reached groups.
fn groups_find(gs: &Vec<GroupRec>, id: &str) -> (r: Option<bool>)
    ensures
        r == spec_groups_find(groups_view(gs@), id@),
{
    let ghost gv = groups_view(gs@);
    let mut i: usize = 0;
    proof {
        assert(gv.skip(0) =~= gv);
    }
    while i < gs.len()
        invariant
            0 <= i <= gv.len(),
            gv == groups_view(gs@),
            gv.len() == gs@.len(),
            spec_groups_find(gv, id@) == spec_groups_find(gv.skip(i as int), id@),
        decreases gv.len() - i,
    {
        proof {
            assert(gv.skip(i as int)[0] == gv[i as int]);
            assert(gv.skip(i as int).drop_first() =~= gv.skip(i + 1));
            assert(gv[i as int] == gs@[i as int]@);
        }
        let same = crate::util::str_eq(gs[i].id.as_str(), id);
        if same {
            return Some(gs[i].ignore_exclusive);
        }
        i = i + 1;
    }
    proof {
        assert(gv.skip(gv.len() as int).len() == 0);
    }
    None
}

/// Reads and decodes the live records of one key.
fn get_live_records<S: Storage>(storage: &mut S, today: i64, key: &str) -> (r: Result<
    Vec<ACLRecord>,
    StorageError,
>)
    ensures
        final(storage).contents() == old(storage).contents(),
        final(storage).reliable() == old(storage).reliable(),
        r matches Ok(v) ==> recs_view(v@) == spec_live_records(
            old(storage).contents(),
            today as int,
            key@,
            false,
        ),
        old(storage).reliable() ==> r is Ok,
{
    storage.fiber_yield();
    match storage.get(key) {
        Err(e) => Err(e),
        Ok(None) => {
            let v: Vec<ACLRecord> = Vec::new();
            proof {
                assert(recs_view(v@) =~= Seq::<SpecRecord>::empty());
            }
            Ok(v)
        },
        Ok(Some(val)) => {
            let mut recs: Vec<ACLRecord> = Vec::new();
            proof {
                assert(recs_view(recs@) =~= Seq::<SpecRecord>::empty());
            }
            let (_ok, date) = decode_rec_to_rights(val.as_str(), &mut recs);
            proof {
                assert(Seq::<SpecRecord>::empty() + spec_decode_records(val@, false).2
                    =~= spec_decode_records(val@, false).2);
            }
            let expired = match date {
                Some(d) => today > d,
                None => false,
            };
            if expired {
                let v: Vec<ACLRecord> = Vec::new();
                proof {
                    assert(recs_view(v@) =~= Seq::<SpecRecord>::empty());
                }
                Ok(v)
            } else {
                Ok(recs)
            }
        },
    }
}

/// Reads the filter mask of a resource.
fn get_filter_mask<S: Storage>(storage: &mut S, today: i64, uri: &str) -> (r: Result<
    u8,
    StorageError,
>)
    ensures
        final(storage).contents() == old(storage).contents(),
        final(storage).reliable() == old(storage).reliable(),
        r matches Ok(m) ==> m == spec_filter_mask(old(storage).contents(), today as int, uri@),
        old(storage).reliable() ==> r is Ok,
{
    let key = make_key('F', uri);
    storage.fiber_yield();
    match storage.get(key.as_str()) {
        Err(e) => Err(e),
        Ok(None) => Ok(0xff),
        Ok(Some(val)) => {
            let ghost vv = val@;
            let (rec_opt, date) = decode_filter(val);
            let expired = match date {
                Some(d) => today > d,
                None => false,
            };
            if expired {
                Ok(0xff)
            } else {
                match rec_opt {
                    Some(r) => Ok(r.access),
                    None => Ok(0xff),
                }
            }
        },
    }
}

/// Expansion without fuel reaches nothing new.
proof fn lemma_expand_no_fuel(
    store: Map<Seq<char>, Seq<char>>,
    today: int,
    worklist: Seq<GroupEntry>,
    visited: Seq<GroupEntry>,
)
    ensures
        spec_expand(store, today, worklist, visited, 0) == visited,
    decreases worklist.len(),
{
    if worklist.len() == 0 {
    } else {
        lemma_expand_no_fuel(store, today, worklist.drop_first(), visited);
    }
}

/// Expands one side of the decision: the seed and every group it
/// transitively belongs to, in discovery order.
fn expand_side<S: Storage>(storage: &mut S, today: i64, seed: &str, trace: &mut Trace) -> (r:
    Result<Vec<GroupRec>, StorageError>)
    ensures
        final(storage).contents() == old(storage).contents(),
        final(storage).reliable() == old(storage).reliable(),
        r matches Ok(v) ==> groups_view(v@) == spec_side_groups(
            old(storage).contents(),
            today as int,
            seed@,
        ),
        old(storage).reliable() ==> r is Ok,
{
    let ghost store = old(storage).contents();
    let ghost target = spec_side_groups(store, today as int, seed@);
    let mut worklist: Vec<GroupRec> = Vec::new();
    worklist.push(GroupRec { id: seed.to_owned(), ignore_exclusive: false });
    let mut visited: Vec<GroupRec> = Vec::new();
    let mut fuel: u64 = EXPAND_LIMIT;
    proof {
        assert(groups_view(worklist@) =~= seq![
            GroupEntry { id: seed@, ignore_exclusive: false },
        ]);
        assert(groups_view(visited@) =~= Seq::<GroupEntry>::empty());
    }
    while worklist.len() > 0 && fuel > 0
        invariant
            store == old(storage).contents(),
            storage.contents() == store,
            storage.reliable() == old(storage).reliable(),
            fuel <= EXPAND_LIMIT,
            target == spec_expand(
                store,
                today as int,
                groups_view(worklist@),
                groups_view(visited@),
                fuel as nat,
            ),
        decreases fuel, worklist@.len(),
    {
        let ghost wl0 = groups_view(worklist@);
        let ghost vis0 = groups_view(visited@);
        let head = worklist.remove(0);
        proof {
            assert(groups_view(worklist@) =~= wl0.drop_first());
            assert(head@ == wl0[0]);
        }
        let found = groups_find(&visited, head.id.as_str());
        if found.is_some() {
            proof {
                assert(spec_expand(store, today as int, wl0, vis0, fuel as nat) == spec_expand(
                    store,
                    today as int,
                    wl0.drop_first(),
                    vis0,
                    fuel as nat,
                ));
            }
        } else {
            fuel = fuel - 1;
            visited.push(GroupRec { id: head.id.clone(), ignore_exclusive: head.ignore_exclusive });
            proof {
                assert(groups_view(visited@) =~= vis0.push(head@));
            }
            let key = make_key('M', head.id.as_str());
            proof {
                assert(key@ == spec_membership_key(head@.id));
            }
            let recs = match get_live_records(storage, today, key.as_str()) {
                Ok(v) => v,
                Err(e) => {
                    return Err(e);
                },
            };
            let ghost children = spec_children(store, today as int, head@);
            let ghost wl1 = groups_view(worklist@);
            proof {
                assert(children.len() == recs@.len());
                assert(wl1 + children.take(0) =~= wl1);
            }
            let mut j: usize = 0;
            while j < recs.len()
                invariant
                    0 <= j <= recs@.len(),
                    children == spec_children(store, today as int, head@),
                    children.len() == recs@.len(),
                    children =~= recs_view(recs@).map_values(
                        |r: SpecRecord|
                            GroupEntry {
                                id: r.id,
                                ignore_exclusive: head@.ignore_exclusive || r.marker
                                    == M_IGNORE_EXCLUSIVE,
                            },
                    ),
                    head.ignore_exclusive == head@.ignore_exclusive,
                    groups_view(worklist@) =~= wl1 + children.take(j as int),
                decreases recs@.len() - j,
            {
                let child = GroupRec {
                    id: recs[j].id.clone(),
                    ignore_exclusive: head.ignore_exclusive || recs[j].marker
                        == M_IGNORE_EXCLUSIVE,
                };
                proof {
                    assert(recs_view(recs@)[j as int] == recs@[j as int]@);
                    assert(child@ == children[j as int]);
                    assert((wl1 + children.take(j as int)).push(children[j as int]) =~= wl1
                        + children.take(j + 1));
                }
                worklist.push(child);
                proof {
                    assert(groups_view(worklist@) =~= (wl1 + children.take(j as int)).push(
                        child@,
                    ));
                }
                j = j + 1;
            }
            proof {
                assert(children.take(children.len() as int) =~= children);
                assert(groups_view(worklist@) =~= wl0.drop_first() + children);
                assert(spec_expand(store, today as int, wl0, vis0, (fuel + 1) as nat)
                    == spec_expand(
                    store,
                    today as int,
                    wl0.drop_first() + children,
                    vis0.push(head@),
                    fuel as nat,
                ));
            }
            if trace.is_group {
                trace.group.append(head.id.as_str());
                push_char(&mut trace.group, '\n');
            }
        }
    }
    proof {
        if worklist@.len() == 0 {
            assert(groups_view(worklist@).len() == 0);
            assert(target == groups_view(visited@));
        } else {
            assert(fuel == 0);
            lemma_expand_no_fuel(
                store,
                today as int,
                groups_view(worklist@),
                groups_view(visited@),
            );
        }
    }
    Ok(visited)
}

} // verus!

verus! {

/// Runs the permission records of one key over the state.
fn apply_record_run(
    granted: &mut u8,
    denied: &mut u8,
    exclusive: &mut bool,
    done: &mut bool,
    recs: &Vec<ACLRecord>,
    req: u8,
    filter: u8,
    users: &Vec<GroupRec>,
    trace: &mut Trace,
)
    ensures
        ({
            let st0 = AzState {
                granted: *old(granted),
                denied: *old(denied),
                exclusive: *old(exclusive),
                done: *old(done),
            };
            let st1 = spec_apply_records(st0, recs_view(recs@), req, filter, groups_view(users@));
            *final(granted) == st1.granted && *final(denied) == st1.denied && *final(exclusive)
                == st1.exclusive && *final(done) == st1.done
        }),
{
    let ghost rv = recs_view(recs@);
    let ghost uv = groups_view(users@);
    let ghost st0 = AzState {
        granted: *granted,
        denied: *denied,
        exclusive: *exclusive,
        done: *done,
    };
    let ghost target = spec_apply_records(st0, rv, req, filter, uv);
    let mut j: usize = 0;
    proof {
        assert(rv.skip(0) =~= rv);
    }
    while j < recs.len()
        invariant
            0 <= j <= rv.len(),
            rv == recs_view(recs@),
            rv.len() == recs@.len(),
            uv == groups_view(users@),
            target == spec_apply_records(
                AzState {
                    granted: *granted,
                    denied: *denied,
                    exclusive: *exclusive,
                    done: *done,
                },
                rv.skip(j as int),
                req,
                filter,
                uv,
            ),
        decreases rv.len() - j,
    {
        let ghost st_cur = AzState {
            granted: *granted,
            denied: *denied,
            exclusive: *exclusive,
            done: *done,
        };
        proof {
            assert(rv.skip(j as int)[0] == rv[j as int]);
            assert(rv.skip(j as int).drop_first() =~= rv.skip(j + 1));
            assert(rv[j as int] == recs@[j as int]@);
        }
        if !*done {
            match groups_find(users, recs[j].id.as_str()) {
                Some(forgiven) => {
                    let permit = recs[j].access & 0x0f;
                    let deny = (recs[j].access >> 4u8) & 0x0f;
                    *denied = *denied | deny;
                    let excl_here = recs[j].marker == M_IS_EXCLUSIVE && !forgiven;
                    let g1 = if *exclusive {
                        *granted
                    } else if excl_here {
                        permit & req & filter
                    } else {
                        *granted | (permit & req & filter)
                    };
                    *granted = g1 & !*denied;
                    if excl_here {
                        *exclusive = true;
                    }
                    *done = *granted == req & !*denied;
                    if trace.is_acl {
                        trace.acl.append(recs[j].id.as_str());
                        push_char(&mut trace.acl, '\n');
                    }
                },
                None => {},
            }
        }
        proof {
            assert((AzState {
                granted: *granted,
                denied: *denied,
                exclusive: *exclusive,
                done: *done,
            }) == spec_apply_record(st_cur, rv[j as int], req, filter, uv));
        }
        j = j + 1;
    }
    proof {
        assert(rv.skip(rv.len() as int).len() == 0);
    }
}

/// Runs the prohibition records of one key over the state.
fn apply_neg_record_run(
    granted: &mut u8,
    denied: &mut u8,
    exclusive: &mut bool,
    done: &mut bool,
    recs: &Vec<ACLRecord>,
    req: u8,
    users: &Vec<GroupRec>,
)
    ensures
        ({
            let st0 = AzState {
                granted: *old(granted),
                denied: *old(denied),
                exclusive: *old(exclusive),
                done: *old(done),
            };
            let st1 = spec_apply_neg_records(st0, recs_view(recs@), req, groups_view(users@));
            *final(granted) == st1.granted && *final(denied) == st1.denied && *final(exclusive)
                == st1.exclusive && *final(done) == st1.done
        }),
{
    let ghost rv = recs_view(recs@);
    let ghost uv = groups_view(users@);
    let ghost st0 = AzState {
        granted: *granted,
        denied: *denied,
        exclusive: *exclusive,
        done: *done,
    };
    let ghost target = spec_apply_neg_records(st0, rv, req, uv);
    let mut j: usize = 0;
    proof {
        assert(rv.skip(0) =~= rv);
    }
    while j < recs.len()
        invariant
            0 <= j <= rv.len(),
            rv == recs_view(recs@),
            rv.len() == recs@.len(),
            uv == groups_view(users@),
            target == spec_apply_neg_records(
                AzState {
                    granted: *granted,
                    denied: *denied,
                    exclusive: *exclusive,
                    done: *done,
                },
                rv.skip(j as int),
                req,
                uv,
            ),
        decreases rv.len() - j,
    {
        let ghost st_cur = AzState {
            granted: *granted,
            denied: *denied,
            exclusive: *exclusive,
            done: *done,
        };
        proof {
            assert(rv.skip(j as int)[0] == rv[j as int]);
            assert(rv.skip(j as int).drop_first() =~= rv.skip(j + 1));
            assert(rv[j as int] == recs@[j as int]@);
        }
        if !*done {
            let found = groups_find(users, recs[j].id.as_str());
            if found.is_some() {
                *denied = *denied | (recs[j].access & 0x0f) | ((recs[j].access >> 4u8) & 0x0f);
                *granted = *granted & !*denied;
                *done = *granted == req & !*denied;
            }
        }
        proof {
            assert((AzState {
                granted: *granted,
                denied: *denied,
                exclusive: *exclusive,
                done: *done,
            }) == spec_apply_neg_record(st_cur, rv[j as int], req, uv));
        }
        j = j + 1;
    }
    proof {
        assert(rv.skip(rv.len() as int).len() == 0);
    }
}

/// Decides a query against the store as it stands at the given
/// calendar day.  The returned byte is exactly what
/// [`spec_authorize`] names for the store's contents.
pub fn authorize_on_day<S: Storage>(
    uri: &str,
    user_uri: &str,
    request_access: u8,
    storage: &mut S,
    today: i64,
    trace: &mut Trace,
) -> (r: Result<u8, StorageError>)
    ensures
        final(storage).contents() == old(storage).contents(),
        final(storage).reliable() == old(storage).reliable(),
        r matches Ok(b) ==> b == spec_authorize(
            old(storage).contents(),
            today as int,
            uri@,
            user_uri@,
            request_access,
        ),
        old(storage).reliable() ==> r is Ok,
{
    let ghost store = old(storage).contents();
    let filter = match get_filter_mask(storage, today, uri) {
        Ok(m) => m,
        Err(e) => {
            return Err(e);
        },
    };
    let users = match expand_side(storage, today, user_uri, trace) {
        Ok(v) => v,
        Err(e) => {
            return Err(e);
        },
    };
    let rids = match expand_side(storage, today, uri, trace) {
        Ok(v) => v,
        Err(e) => {
            return Err(e);
        },
    };
    let ghost uv = groups_view(users@);
    let ghost rv = groups_view(rids@);
    let ghost target = spec_apply_all(
        spec_initial_state(),
        store,
        today as int,
        rv,
        request_access,
        filter,
        uv,
    );
    let mut granted: u8 = 0;
    let mut denied: u8 = 0;
    let mut exclusive: bool = false;
    let mut done: bool = false;
    let mut i: usize = 0;
    proof {
        assert(rv.skip(0) =~= rv);
    }
    while i < rids.len()
        invariant
            0 <= i <= rv.len(),
            store == old(storage).contents(),
            storage.contents() == store,
            storage.reliable() == old(storage).reliable(),
            rv == groups_view(rids@),
            rv.len() == rids@.len(),
            uv == groups_view(users@),
            filter == spec_filter_mask(store, today as int, uri@),
            target == spec_apply_all(
                AzState { granted: granted, denied: denied, exclusive: exclusive, done: done },
                store,
                today as int,
                rv.skip(i as int),
                request_access,
                filter,
                uv,
            ),
        decreases rv.len() - i,
    {
        let ghost st_cur = AzState {
            granted: granted,
            denied: denied,
            exclusive: exclusive,
            done: done,
        };
        proof {
            assert(rv.skip(i as int)[0] == rv[i as int]);
            assert(rv.skip(i as int).drop_first() =~= rv.skip(i + 1));
            assert(rv[i as int] == rids@[i as int]@);
        }
        let p_key = make_key('P', rids[i].id.as_str());
        proof {
            assert(p_key@ == spec_permission_key(rv[i as int].id));
        }
        let precs = match get_live_records(storage, today, p_key.as_str()) {
            Ok(v) => v,
            Err(e) => {
                return Err(e);
            },
        };
        apply_record_run(
            &mut granted,
            &mut denied,
            &mut exclusive,
            &mut done,
            &precs,
            request_access,
            filter,
            &users,
            trace,
        );
        let n_key = make_key('N', rids[i].id.as_str());
        proof {
            assert(n_key@ == spec_prohibition_key(rv[i as int].id));
        }
        let nrecs = match get_live_records(storage, today, n_key.as_str()) {
            Ok(v) => v,
            Err(e) => {
                return Err(e);
            },
        };
        apply_neg_record_run(
            &mut granted,
            &mut denied,
            &mut exclusive,
            &mut done,
            &nrecs,
            request_access,
            &users,
        );
        proof {
            assert((AzState {
                granted: granted,
                denied: denied,
                exclusive: exclusive,
                done: done,
            }) == spec_apply_rid(
                st_cur,
                store,
                today as int,
                rv[i as int].id,
                request_access,
                filter,
                uv,
            ));
        }
        i = i + 1;
    }
    proof {
        assert(rv.skip(rv.len() as int).len() == 0);
    }
    Ok(granted)
}

} // verus!

verus! {

/// Relies on chrono's `Utc::now` and the `Datelike` accessors of
/// `NaiveDate`: the current UTC calendar date as year, month and day.
/// `month` and `day` are one-based calendar fields.
#[verifier::external_body]
fn current_date_fields() -> (r: (i64, i64, i64))
    ensures
        1 <= r.1 <= 12,
        1 <= r.2 <= 31,
{
    let now = chrono::Utc::now().date_naive();
    (
        chrono::Datelike::year(&now) as i64,
        chrono::Datelike::month(&now) as i64,
        chrono::Datelike::day(&now) as i64,
    )
}

/// The current UTC day as a day key; years outside the key's range
/// are pinned to its ends.
pub fn current_day_key() -> (d: i64)
    ensures
        0 <= d < 100000000,
{
    let (y, m, dd) = current_date_fields();
    let yc: i64 = if y < 0 {
        0
    } else if y > 9999 {
        9999
    } else {
        y
    };
    yc * 10000 + m * 100 + dd
}

/// Decides a query at the current day.  The byte never holds a bit
/// outside the request, and against a reliable storage the decision
/// cannot fail.
pub fn authorize<S: Storage>(
    uri: &str,
    user_uri: &str,
    request_access: u8,
    storage: &mut S,
    trace: &mut Trace,
) -> (r: Result<u8, StorageError>)
    ensures
        final(storage).contents() == old(storage).contents(),
        final(storage).reliable() == old(storage).reliable(),
        r matches Ok(b) ==> exists|d: int|
            b == spec_authorize(old(storage).contents(), d, uri@, user_uri@, request_access),
        r matches Ok(b) ==> b & !request_access == 0,
        old(storage).reliable() ==> r is Ok,
{
    let today = current_day_key();
    let r = authorize_on_day(uri, user_uri, request_access, storage, today, trace);
    proof {
        match r {
            Ok(b) => {
                assert(b == spec_authorize(
                    old(storage).contents(),
                    today as int,
                    uri@,
                    user_uri@,
                    request_access,
                ));
                crate::az::laws::lemma_never_grants_unrequested(
                    old(storage).contents(),
                    today as int,
                    uri@,
                    user_uri@,
                    request_access,
                );
            },
            Err(_) => {},
        }
    }
    r
}

} // verus!
