//! End-to-end decisions of the authorization engine over an in-memory
//! rights store.

use veda_az::az::common::Trace;
use veda_az::az::engine::authorize;
use veda_az::storage::common::{Storage, StorageId};
use veda_az::storage::memory_storage::MemoryStorage;

fn put(s: &mut MemoryStorage, key: &str, val: &str) {
    assert!(s.put_kv(StorageId::Az, key, val));
}

fn decide(s: &mut MemoryStorage, uri: &str, user: &str, req: u8) -> u8 {
    let mut t = Trace::new();
    authorize(uri, user, req, s, &mut t).expect("memory storage reads cannot fail")
}

#[test]
fn empty_store_grants_nothing() {
    let mut s = MemoryStorage::new();
    assert_eq!(decide(&mut s, "doc:1", "u:alice", 0x0F), 0);
}

#[test]
fn direct_permit() {
    let mut s = MemoryStorage::new();
    put(&mut s, "Pdoc:1", "u:alice;R;");
    assert_eq!(decide(&mut s, "doc:1", "u:alice", 0x0F), 2);
}

#[test]
fn group_permit() {
    let mut s = MemoryStorage::new();
    put(&mut s, "Mu:alice", "g:eng;R;");
    put(&mut s, "Pdoc:1", "g:eng;R;");
    assert_eq!(decide(&mut s, "doc:1", "u:alice", 0x0F), 2);
}

#[test]
fn deny_overrides_permit() {
    let mut s = MemoryStorage::new();
    put(&mut s, "Pdoc:1", "u:alice;R;u:alice;r;");
    assert_eq!(decide(&mut s, "doc:1", "u:alice", 0x0F), 0);
}

#[test]
fn exclusive_prunes_other_grants() {
    let mut s = MemoryStorage::new();
    put(&mut s, "Mu:alice", "g:eng;R;g:exec;R;");
    put(&mut s, "Pdoc:1", "g:eng;RUX;g:exec;P;");
    assert_eq!(decide(&mut s, "doc:1", "u:alice", 0x0F), 6);
}

#[test]
fn ignore_exclusive_keeps_other_grants() {
    let mut s = MemoryStorage::new();
    put(&mut s, "Mu:alice", "g:eng;RN;g:exec;R;");
    put(&mut s, "Pdoc:1", "g:eng;RUX;g:exec;P;");
    // the path to g:eng forgives the exclusive record, so g:exec's
    // delete grant survives beside it
    assert_eq!(decide(&mut s, "doc:1", "u:alice", 0x0F), 6 | 8);
}

#[test]
fn filter_subtracts() {
    let mut s = MemoryStorage::new();
    put(&mut s, "Mu:alice", "g:eng;R;");
    put(&mut s, "Pdoc:1", "g:eng;R;");
    put(&mut s, "Fdoc:1", "doc:1;M;");
    assert_eq!(decide(&mut s, "doc:1", "u:alice", 0x0F), 0);
}

#[test]
fn expired_date_hides_record() {
    let mut s = MemoryStorage::new();
    put(&mut s, "Pdoc:1", "T000101,u:alice;R;");
    assert_eq!(decide(&mut s, "doc:1", "u:alice", 0x0F), 0);
}

#[test]
fn prohibition_records_deny() {
    let mut s = MemoryStorage::new();
    put(&mut s, "Pdoc:1", "u:alice;RU;");
    put(&mut s, "Ndoc:1", "u:alice;R;");
    assert_eq!(decide(&mut s, "doc:1", "u:alice", 0x0F), 4);
}

#[test]
fn transitive_groups_and_cycles() {
    let mut s = MemoryStorage::new();
    put(&mut s, "Mu:alice", "g:a;R;");
    put(&mut s, "Mg:a", "g:b;R;");
    put(&mut s, "Mg:b", "g:a;R;");
    put(&mut s, "Pdoc:1", "g:b;RU;");
    assert_eq!(decide(&mut s, "doc:1", "u:alice", 0x0F), 6);
}

#[test]
fn request_masks_grants() {
    let mut s = MemoryStorage::new();
    put(&mut s, "Pdoc:1", "u:alice;RUMP;");
    assert_eq!(decide(&mut s, "doc:1", "u:alice", veda_az::ACCESS_CAN_READ), 2);
    assert_eq!(decide(&mut s, "doc:1", "u:alice", 0x00), 0);
    assert_eq!(decide(&mut s, "doc:1", "u:alice", veda_az::ACCESS_FULL), 15);
}

#[test]
fn repeated_calls_agree() {
    let mut s = MemoryStorage::new();
    put(&mut s, "Mu:alice", "g:eng;R;");
    put(&mut s, "Pdoc:1", "g:eng;RU;");
    let first = decide(&mut s, "doc:1", "u:alice", 0x0F);
    let second = decide(&mut s, "doc:1", "u:alice", 0x0F);
    assert_eq!(first, second);
    assert_eq!(first, 6);
}

#[test]
fn context_retries_and_counts() {
    let mut ctx = veda_az::az::context::AzContext::new(MemoryStorage::new(), 10);
    assert!(ctx
        .storage
        .put_kv(StorageId::Az, "Pdoc:1", "u:alice;R;"));
    let r = ctx.authorize("doc:1", "u:alice", 0x0F, false);
    assert_eq!(r, Ok(2));
}

#[test]
fn f_authorize_matches_engine() {
    let mut s = MemoryStorage::new();
    put(&mut s, "Pdoc:1", "u:alice;R;");
    let mut t = Trace::new();
    let r = veda_az::az::context::f_authorize(&mut s, "doc:1", "u:alice", 0x0F, false, &mut t);
    assert_eq!(r, Ok(2));
}

#[test]
fn group_trace_lists_groups() {
    let mut s = MemoryStorage::new();
    put(&mut s, "Mu:alice", "g:eng;R;");
    put(&mut s, "Pdoc:1", "g:eng;R;");
    let mut t = Trace::new();
    t.is_group = true;
    let r = authorize("doc:1", "u:alice", 0x0F, &mut s, &mut t);
    assert_eq!(r, Ok(2));
    assert!(t.group.contains("g:eng"));
}

#[test]
fn disjoint_groups_grant_the_union() {
    // without markers or denies, membership in two unrelated groups
    // grants the union of what each group grants alone
    let mut both = MemoryStorage::new();
    put(&mut both, "Mu:alice", "g:a;R;g:b;R;");
    put(&mut both, "Pdoc:1", "g:a;R;g:b;U;");
    let mut only_a = MemoryStorage::new();
    put(&mut only_a, "Mu:alice", "g:a;R;");
    put(&mut only_a, "Pdoc:1", "g:a;R;g:b;U;");
    let mut only_b = MemoryStorage::new();
    put(&mut only_b, "Mu:alice", "g:b;R;");
    put(&mut only_b, "Pdoc:1", "g:a;R;g:b;U;");
    let with_both = decide(&mut both, "doc:1", "u:alice", 0x0F);
    let with_a = decide(&mut only_a, "doc:1", "u:alice", 0x0F);
    let with_b = decide(&mut only_b, "doc:1", "u:alice", 0x0F);
    assert_eq!(with_both, with_a | with_b);
    assert_eq!(with_both, 6);
}
