//! The platform's plain types: storage, result codes, datatypes,
//! query envelopes, and the statistics text.

use veda_az::onto::datatype::{exponent_to_scale, DataType, Lang};
use veda_az::search::common::{
    is_identifier, split_full_prefix, split_short_prefix, FTQuery,
};
use veda_az::storage::common::{Storage, StorageId};
use veda_az::storage::memory_storage::MemoryStorage;
use veda_az::v_api::api_client::{IndvOp, OpResult};
use veda_az::v_api::common_type::{OptAuthorize, ResultCode};
use veda_az::az::stat::{format_stat_message, StatCollector, StatMode};

#[test]
fn test_basic_operations() {
    let mut storage = MemoryStorage::new();

    assert!(storage.put_kv(StorageId::Individuals, "key1", "value1"));
    assert_eq!(storage.get_v(StorageId::Individuals, "key1"), Some("value1".to_string()));

    let raw_data = vec![1, 2, 3, 4];
    assert!(storage.put_kv_raw(StorageId::Individuals, "key2", raw_data.clone()));
    assert_eq!(storage.get_raw(StorageId::Individuals, "key2"), raw_data);

    assert!(storage.remove(StorageId::Individuals, "key1"));
    assert_eq!(storage.get_v(StorageId::Individuals, "key1"), None);

    assert_eq!(storage.count(StorageId::Individuals), 1);
}

#[test]
fn test_result_code_values() {
    assert_eq!(ResultCode::Okay.to_u16(), 200);
    assert_eq!(ResultCode::NotFound.to_u16(), 404);
    assert_eq!(ResultCode::InternalServerError.to_u16(), 500);
}

#[test]
fn test_from_i64() {
    assert_eq!(ResultCode::from_i64(200), ResultCode::Okay);
    assert_eq!(ResultCode::from_i64(404), ResultCode::NotFound);
    assert_eq!(ResultCode::from_i64(500), ResultCode::InternalServerError);
    assert_eq!(ResultCode::from_i64(999999), ResultCode::Zero);
}

#[test]
fn test_opt_authorize() {
    assert_eq!(OptAuthorize::YES, OptAuthorize::YES);
    assert_ne!(OptAuthorize::YES, OptAuthorize::NO);
}

#[test]
fn test_data_insertion_helpers() {
    let mut storage = MemoryStorage::new();
    storage.insert_test_data(StorageId::Tickets, "t1", vec![9, 8]);
    assert_eq!(storage.get_test_data(StorageId::Tickets, "t1"), Some(vec![9, 8]));
    assert_eq!(storage.get_test_data(StorageId::Tickets, "t2"), None);
}

#[test]
fn datatype_codes() {
    assert_eq!(DataType::new_from_str("Uri"), Some(DataType::Uri));
    assert_eq!(DataType::new_from_str("Nothing"), None);
    assert_eq!(DataType::new_from_u64(8), Some(DataType::Datetime));
    assert_eq!(DataType::new_from_u64(3), None);
}

#[test]
fn lang_names() {
    assert_eq!(Lang::new_from_str("ru").to_string(), "RU");
    assert!(!Lang::new_from_str("none").is_some());
    assert_eq!(Lang::new_from_i64(2).to_string(), "EN");
    assert_eq!(Lang::none().to_string(), "NONE");
}

#[test]
fn exponent_scaling() {
    assert_eq!(exponent_to_scale(&123, &-2), (123, 2));
    assert_eq!(exponent_to_scale(&123, &2), (12300, 0));
    assert_eq!(exponent_to_scale(&5, &0), (5, 0));
}

#[test]
fn indv_op_codes() {
    assert_eq!(IndvOp::from_i64(47), IndvOp::AddTo);
    assert_eq!(IndvOp::from_i64(7), IndvOp::NoneOp);
    assert_eq!(IndvOp::AddTo.to_i64(), 47);
    assert_eq!(IndvOp::RemoveFrom.as_string(), "remove_from");
    let r = OpResult::res(ResultCode::NotReady);
    assert_eq!(r.result, ResultCode::NotReady);
    assert_eq!(r.op_id, -1);
}

#[test]
fn ftquery_wire_form() {
    let q = FTQuery::new_with_user("u1", "'a'==\"b\"");
    assert_eq!(q.as_string(), "[\"\"UU=u1\",\"'a'==\\\"b\\\"\",\"\",\"\",false,10000,10000,0]");
    let t = FTQuery::new_with_ticket("tick", "x");
    assert_eq!(t.as_string(), "[\"tick\",\"x\",\"\",\"\",false,10000,10000,0]");
}

#[test]
fn prefix_splitting() {
    assert_eq!(split_full_prefix("http://x/y"), ("http://x/", "y"));
    assert_eq!(split_full_prefix("a#b"), ("a#", "b"));
    assert_eq!(split_short_prefix("v-s:label"), Some(("v-s", "label")));
    assert_eq!(split_short_prefix("nocolon"), None);
}

#[test]
fn identifier_shapes() {
    assert!(is_identifier("v0:WorkItem-1"));
    assert!(!is_identifier("V:x"));
    assert!(!is_identifier(":x"));
    assert!(!is_identifier("v:x:y"));
    assert!(!is_identifier("v"));
    assert!(is_identifier("v:"));
}

#[test]
fn stat_texts() {
    assert_eq!(format_stat_message("k1", false, false), "k1/B");
    assert_eq!(format_stat_message("k1", true, false), "k1/cB");
    assert_eq!(format_stat_message("k1", true, true), "k1/C");
    assert_eq!(StatMode::from_name("minimal"), StatMode::Minimal);
    assert_eq!(StatMode::from_name("off"), StatMode::Off);

    let mut c = StatCollector::new("sender01".to_string());
    c.collect("k1/B".to_string());
    c.collect("k2/C".to_string());
    c.set_duration_micros(1500);
    assert_eq!(c.build_flush_message(), "sender01,1500,k1/B;k2/C");
    c.clear();
    assert_eq!(c.build_flush_message(), "sender01,1500,");
}
