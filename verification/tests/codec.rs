//! The ACL record codec: decoding both value formats, encoding, and
//! the counter update.

use veda_az::az::formats::{
    decode_filter, decode_rec_to_rights, decode_rec_to_rightset, encode_record, update_counters,
};
use veda_az::az::records::{counters_get, ACLRecord, ACLRecordSet};

#[test]
fn decode_v2_tags_and_counters() {
    let mut recs: Vec<ACLRecord> = Vec::new();
    let (ok, date) = decode_rec_to_rights("u:alice;RU;", &mut recs);
    assert!(ok);
    assert!(date.is_none());
    assert_eq!(recs.len(), 1);
    assert_eq!(recs[0].id, "u:alice");
    assert_eq!(recs[0].access, 6);
    assert!(!recs[0].is_deleted);

    let mut set = ACLRecordSet::new();
    let (ok2, _) = decode_rec_to_rightset("u:alice;R3U;", &mut set);
    assert!(ok2);
    let rec = set.get("u:alice").expect("record decoded");
    assert_eq!(rec.access, 6);
    assert_eq!(counters_get(&rec.counters, 'R'), Some(3));
    assert_eq!(counters_get(&rec.counters, 'U'), Some(1));
}

#[test]
fn decode_v1_hex_and_marker() {
    let mut recs: Vec<ACLRecord> = Vec::new();
    decode_rec_to_rights("u:alice;6;", &mut recs);
    assert_eq!(recs[0].access, 6);

    let mut recs2: Vec<ACLRecord> = Vec::new();
    decode_rec_to_rights("u:alice;2fX;", &mut recs2);
    assert_eq!(recs2[0].access, 0xf2);
    assert_eq!(recs2[0].marker, 'X');
}

#[test]
fn decode_skips_empty_values_and_half_pairs() {
    let mut recs: Vec<ACLRecord> = Vec::new();
    let (ok, _) = decode_rec_to_rights("a;;b;R;c", &mut recs);
    assert!(ok);
    assert_eq!(recs.len(), 1);
    assert_eq!(recs[0].id, "b");
    assert_eq!(recs[0].access, 2);
}

#[test]
fn decode_empty_value_reports_failure() {
    let mut recs: Vec<ACLRecord> = Vec::new();
    let (ok, _) = decode_rec_to_rights("", &mut recs);
    assert!(!ok);
    assert_eq!(recs.len(), 0);
}

#[test]
fn date_prefix_round_trip() {
    let mut recs: Vec<ACLRecord> = Vec::new();
    let (ok, date) = decode_rec_to_rights("T210431,u:x;R;", &mut recs);
    // the 31st of April does not exist, so the prefix is no date and
    // stays part of the first id
    assert!(ok);
    assert!(date.is_none());
    assert_eq!(recs.len(), 1);
    assert_eq!(recs[0].id, "T210431,u:x");

    let mut recs2: Vec<ACLRecord> = Vec::new();
    let (ok2, date2) = decode_rec_to_rights("T210430,u:x;R;", &mut recs2);
    assert!(ok2);
    assert_eq!(date2, Some(20210430));
    assert_eq!(recs2[0].access, 2);
}

#[test]
fn encode_then_decode_returns_the_record() {
    let mut set = ACLRecordSet::new();
    let mut rec = ACLRecord::new_with_access("u:alice", 6);
    rec.counters.push(('R', 2));
    rec.counters.push(('U', 1));
    set.insert(rec);
    let text = encode_record(None, &set, 2);
    assert_eq!(text, "u:alice;R2U;");

    let mut back = ACLRecordSet::new();
    let (ok, date) = decode_rec_to_rightset(&text, &mut back);
    assert!(ok);
    assert!(date.is_none());
    let r = back.get("u:alice").expect("round-tripped record");
    assert_eq!(r.access, 6);
    assert_eq!(counters_get(&r.counters, 'R'), Some(2));
    assert_eq!(counters_get(&r.counters, 'U'), Some(1));
}

#[test]
fn encode_empty_set_writes_x() {
    let set = ACLRecordSet::new();
    assert_eq!(encode_record(None, &set, 2), "X");

    let mut deleted = ACLRecordSet::new();
    let mut rec = ACLRecord::new_with_access("u:gone", 2);
    rec.is_deleted = true;
    deleted.insert(rec);
    assert_eq!(encode_record(Some(20210430), &deleted, 2), "T210430,X");
}

#[test]
fn encode_v1_writes_hex() {
    let mut set = ACLRecordSet::new();
    set.insert(ACLRecord::new_with_access("u:alice", 0x1f));
    assert_eq!(encode_record(None, &set, 1), "u:alice;1F;");
}

#[test]
fn decode_filter_shapes() {
    let (rec, date) = decode_filter("doc:1;M;".to_string());
    let rec = rec.expect("filter record");
    assert_eq!(rec.id, "doc:1");
    assert_eq!(rec.access, 1);
    assert!(date.is_none());

    let (rec2, _) = decode_filter("x".to_string());
    let rec2 = rec2.expect("short values give an empty filter");
    assert_eq!(rec2.id, "");
    assert_eq!(rec2.access, 0);
}

#[test]
fn counters_add_then_remove_restores_zero() {
    let mut counters: Vec<(char, u16)> = Vec::new();
    let access: u8 = 6;
    let n = 5;
    let mut out = 0;
    for _ in 0..n {
        out = update_counters(&mut counters, access, access, false, false);
        assert_eq!(out, access);
    }
    assert_eq!(counters_get(&counters, 'R'), Some(n));
    for _ in 0..n {
        out = update_counters(&mut counters, access, access, true, false);
    }
    assert_eq!(out, 0);
    assert_eq!(counters_get(&counters, 'R'), Some(0));
}

#[test]
fn drop_count_collapses_to_one() {
    let mut counters: Vec<(char, u16)> = Vec::new();
    for _ in 0..4 {
        update_counters(&mut counters, 2, 2, false, false);
    }
    assert_eq!(counters_get(&counters, 'R'), Some(4));
    let out = update_counters(&mut counters, 2, 2, false, true);
    assert_eq!(out, 2);
    assert_eq!(counters_get(&counters, 'R'), Some(1));
    let out2 = update_counters(&mut counters, 2, 2, true, true);
    assert_eq!(out2, 0);
    assert_eq!(counters_get(&counters, 'R'), Some(0));
}
