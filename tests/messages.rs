use dashmap::DashMap;
use su_store::bytestore::ByteStore;
use su_store::error::StoreErrorType;
use su_store::model::{Message, MessagePage};
use su_store::store::TableModel;

fn msg(pid: &str, mid: &str, aid: Option<&str>, content: bool, ts: i64, bundle: &[u8]) -> Message {
    Message {
        process_id: pid.to_string(),
        message_id: mid.to_string(),
        assignment_id: aid.map(|a| a.to_string()),
        message: if content { Some(mid.to_string()) } else { None },
        epoch: 0,
        nonce: ts as i32,
        timestamp: ts,
        hash_chain: format!("chain-{}", ts),
        data: format!("{{\"id\":\"{}\"}}", mid),
        bundle: Vec::new(),
    }
}

fn store(use_disk: bool) -> TableModel {
    TableModel::new(use_disk, ByteStore::new("/data/su".to_string(), 4))
}

#[test]
fn content_record_wins_over_later_assignment() {
    let mut s = store(false);
    assert!(s.save_message(&msg("p", "m1", Some("a1"), true, 10, b"orig"), b"orig").is_ok());
    assert!(s.save_message(&msg("p", "m1", Some("a2"), false, 20, b"asg"), b"asg").is_ok());
    let got = s.get_message("m1").unwrap();
    assert_eq!(got.message, Some("m1".to_string()));
    assert_eq!(got.assignment_id, Some("a1".to_string()));
    assert_eq!(got.bundle, b"orig".to_vec());
}

#[test]
fn content_record_wins_when_assignment_inserted_first() {
    let mut s = store(false);
    assert!(s.save_message(&msg("p", "m1", Some("a2"), false, 20, b"asg"), b"asg").is_ok());
    assert!(s.save_message(&msg("p", "m1", Some("a1"), true, 10, b"orig"), b"orig").is_ok());
    let got = s.get_message("m1").unwrap();
    assert_eq!(got.message, Some("m1".to_string()));
    assert_eq!(got.timestamp, 10);
    let by_assignment = s.get_message("a2").unwrap();
    assert_eq!(by_assignment.assignment_id, Some("a2".to_string()));
    assert_eq!(by_assignment.message, None);
}

#[test]
fn equal_timestamps_resolve_by_insertion_order() {
    let mut s = store(false);
    assert!(s.save_message(&msg("p", "m1", Some("a1"), true, 10, b"x"), b"x").is_ok());
    assert!(s.save_message(&msg("p", "m1", Some("a2"), false, 10, b"y"), b"y").is_ok());
    assert_eq!(s.get_message("m1").unwrap().assignment_id, Some("a1".to_string()));
}

#[test]
fn duplicate_content_is_refused() {
    let mut s = store(false);
    assert!(s.save_message(&msg("p", "m1", Some("a1"), true, 1, b"x"), b"x").is_ok());
    let r = s.save_message(&msg("p", "m1", Some("a9"), true, 2, b"y"), b"y");
    assert!(matches!(r, Err(StoreErrorType::MessageExists(_))));
    assert_eq!(s.get_message_count(), 1);
}

#[test]
fn assignment_for_existing_message_is_accepted() {
    let mut s = store(false);
    assert!(s.save_message(&msg("p", "m1", Some("a1"), true, 1, b"x"), b"x").is_ok());
    assert_eq!(s.save_message(&msg("p", "m1", Some("a2"), false, 2, b"x"), b"x").unwrap(), "saved");
    assert_eq!(s.get_message_count(), 2);
}

#[test]
fn message_without_assignment_is_refused() {
    let mut s = store(false);
    let r = s.save_message(&msg("p", "m1", None, true, 1, b"x"), b"x");
    assert!(matches!(r, Err(StoreErrorType::JsonError(_))));
    assert_eq!(s.get_message_count(), 0);
}

#[test]
fn check_existing_message_cases() {
    let mut s = store(false);
    assert!(s.check_existing_message(&msg("p", "m1", Some("a1"), true, 1, b"")).is_ok());
    assert!(s.save_message(&msg("p", "m1", Some("a1"), true, 1, b"x"), b"x").is_ok());
    assert!(matches!(
        s.check_existing_message(&msg("p", "m1", Some("a2"), true, 2, b"")),
        Err(StoreErrorType::MessageExists(_))
    ));
    assert!(s.check_existing_message(&msg("p", "m1", Some("a2"), false, 2, b"")).is_ok());
}

#[test]
fn missing_message_is_not_found() {
    let s = store(false);
    assert!(matches!(s.get_message("nope"), Err(StoreErrorType::NotFound(_))));
    assert!(matches!(
        s.get_message_internal(&"nope".to_string(), &None),
        Err(StoreErrorType::NotFound(_))
    ));
}

#[test]
fn internal_lookup_filters_by_assignment() {
    let mut s = store(false);
    assert!(s.save_message(&msg("p", "m1", Some("a1"), true, 1, b"one"), b"one").is_ok());
    assert!(s.save_message(&msg("p", "m1", Some("a2"), false, 2, b"two"), b"two").is_ok());
    let m = s.get_message_internal(&"m1".to_string(), &Some("a2".to_string())).unwrap();
    assert_eq!(m.bundle, b"two".to_vec());
    let any = s.get_message_internal(&"m1".to_string(), &None).unwrap();
    assert_eq!(any.bundle, b"one".to_vec());
}

#[test]
fn latest_message_on_empty_then_after_save() {
    let mut s = store(false);
    assert!(s.get_latest_message("p").unwrap().is_none());
    let m = msg("p", "m1", Some("a1"), true, 5, b"b");
    assert!(s.save_message(&m, b"b").is_ok());
    let latest = s.get_latest_message("p").unwrap().unwrap();
    assert_eq!(latest.message_id, "m1");
    assert_eq!(latest.assignment_id, Some("a1".to_string()));
    assert_eq!(latest.timestamp, 5);
    assert_eq!(latest.hash_chain, "chain-5");
    assert_eq!(latest.data, m.data);
    assert_eq!(latest.bundle, b"b".to_vec());
}

#[test]
fn latest_message_follows_insertion_not_timestamp() {
    let mut s = store(false);
    assert!(s.save_message(&msg("p", "m1", Some("a1"), true, 50, b""), b"").is_ok());
    assert!(s.save_message(&msg("p", "m2", Some("a2"), true, 10, b""), b"").is_ok());
    assert!(s.save_message(&msg("q", "m3", Some("a3"), true, 5, b""), b"").is_ok());
    assert_eq!(s.get_latest_message("p").unwrap().unwrap().message_id, "m2");
    assert_eq!(s.get_latest_message("q").unwrap().unwrap().message_id, "m3");
}

fn filled(n: usize) -> TableModel {
    let mut s = store(false);
    for i in 0..n {
        let id = format!("m{}", i);
        let a = format!("a{}", i);
        let m = msg("p", &id, Some(&a), true, i as i64 + 1, b"");
        assert!(s.save_message(&m, b"").is_ok());
    }
    s
}

#[test]
fn default_limit_with_one_more_message_has_next_page() {
    let s = filled(5001);
    let page = s.get_messages("p", &None, &None, &None).unwrap();
    assert_eq!(page.messages.len(), 5000);
    assert!(page.has_next_page);
    assert_eq!(page.messages[0].timestamp, 1);
    assert_eq!(page.messages[4999].timestamp, 5000);
}

#[test]
fn default_limit_with_exactly_limit_messages_has_no_next_page() {
    let s = filled(5000);
    let page = s.get_messages("p", &None, &None, &None).unwrap();
    assert_eq!(page.messages.len(), 5000);
    assert!(!page.has_next_page);
}

#[test]
fn from_bound_is_exclusive_and_to_bound_inclusive() {
    let mut s = store(false);
    for (i, ts) in [99i64, 100, 101, 102].iter().enumerate() {
        let id = format!("m{}", i);
        let a = format!("a{}", i);
        assert!(s.save_message(&msg("p", &id, Some(&a), true, *ts, b""), b"").is_ok());
    }
    let page = s.get_messages("p", &Some("100".to_string()), &None, &None).unwrap();
    let stamps: Vec<i64> = page.messages.iter().map(|m| m.timestamp).collect();
    assert_eq!(stamps, vec![101, 102]);
    let page = s.get_messages("p", &None, &Some("100".to_string()), &None).unwrap();
    let stamps: Vec<i64> = page.messages.iter().map(|m| m.timestamp).collect();
    assert_eq!(stamps, vec![99, 100]);
    let page = s.get_messages("p", &Some("99".to_string()), &Some("101".to_string()), &Some(1)).unwrap();
    assert_eq!(page.messages.len(), 1);
    assert_eq!(page.messages[0].timestamp, 100);
    assert!(page.has_next_page);
}

#[test]
fn page_is_in_timestamp_order_and_per_process() {
    let mut s = store(false);
    assert!(s.save_message(&msg("p", "m1", Some("a1"), true, 30, b""), b"").is_ok());
    assert!(s.save_message(&msg("q", "m2", Some("a2"), true, 20, b""), b"").is_ok());
    assert!(s.save_message(&msg("p", "m3", Some("a3"), true, 10, b""), b"").is_ok());
    let page = s.get_messages("p", &None, &None, &Some(10)).unwrap();
    let ids: Vec<String> = page.messages.iter().map(|m| m.message_id.clone()).collect();
    assert_eq!(ids, vec!["m3".to_string(), "m1".to_string()]);
    assert!(!page.has_next_page);
}

#[test]
fn zero_limit_page() {
    let s = filled(2);
    let page = s.get_messages("p", &None, &None, &Some(0)).unwrap();
    assert_eq!(page.messages.len(), 0);
    assert!(page.has_next_page);
}

#[test]
fn malformed_cursor_is_int_error() {
    let s = filled(1);
    assert!(matches!(
        s.get_messages("p", &Some("12x".to_string()), &None, &None),
        Err(StoreErrorType::IntError(_))
    ));
    assert!(matches!(
        s.get_messages("p", &None, &Some("".to_string()), &None),
        Err(StoreErrorType::IntError(_))
    ));
}

#[test]
fn negative_limit_is_database_error() {
    let s = filled(1);
    assert!(matches!(
        s.get_messages("p", &None, &None, &Some(-1)),
        Err(StoreErrorType::DatabaseError(_))
    ));
}

#[test]
fn disk_page_uses_found_bundles_and_falls_back_to_rows() {
    let mut s = store(true);
    assert!(s.save_message(&msg("p", "m1", Some("a1"), true, 1, b""), b"stored-one").is_ok());
    assert!(s.save_message(&msg("p", "m2", Some("a2"), true, 2, b""), b"stored-two").is_ok());
    let page: MessagePage = s.get_message_rows("p", &None, &None, &None).unwrap();
    assert_eq!(page.rows.len(), 2);
    let keys = TableModel::page_keys(&page);
    assert_eq!(keys[0], ("m1".to_string(), Some("a1".to_string()), "p".to_string()));
    let binaries = DashMap::new();
    binaries.insert(keys[0].clone(), b"from-disk".to_vec());
    let out = s.get_messages_with_bundles(&page, binaries).unwrap();
    assert_eq!(out.messages.len(), 2);
    assert_eq!(out.messages[0].bundle, b"from-disk".to_vec());
    assert_eq!(out.messages[1].bundle, b"stored-two".to_vec());
    assert_eq!(out.messages[1].message_id, "m2");
    assert!(!out.has_next_page);
}

#[test]
fn resolve_bundle_without_any_row_is_not_found() {
    let mut s = store(true);
    assert!(s.save_message(&msg("p", "m1", Some("a1"), true, 1, b""), b"x").is_ok());
    let mut page = s.get_message_rows("p", &None, &None, &None).unwrap();
    let mut row = page.rows.remove(0);
    row.message_id = "gone".to_string();
    assert!(matches!(s.resolve_bundle(&row, None), Err(StoreErrorType::NotFound(_))));
    assert_eq!(s.resolve_bundle(&row, Some(vec![7])).unwrap().bundle, vec![7]);
}

#[test]
fn all_messages_by_offset() {
    let s = filled(5);
    let rows = s.get_all_messages(1, Some(3)).unwrap();
    assert_eq!(rows.len(), 2);
    assert_eq!(rows[0].0, "m1");
    assert_eq!(rows[1].0, "m2");
    assert_eq!(rows[1].1, Some("a2".to_string()));
    assert_eq!(rows[1].3, "p");
    assert_eq!(s.get_all_messages(3, None).unwrap().len(), 2);
    assert_eq!(s.get_all_messages(9, None).unwrap().len(), 0);
    assert!(matches!(s.get_all_messages(-1, None), Err(StoreErrorType::DatabaseError(_))));
    assert!(matches!(s.get_all_messages(3, Some(2)), Err(StoreErrorType::DatabaseError(_))));
}

#[test]
fn message_round_trip_keeps_every_field() {
    let mut s = store(false);
    let m = Message {
        process_id: "proc".to_string(),
        message_id: "mid".to_string(),
        assignment_id: Some("aid".to_string()),
        message: Some("mid".to_string()),
        epoch: 3,
        nonce: 17,
        timestamp: 1700000000123,
        hash_chain: "hc".to_string(),
        data: "{\"Tags\":[]}".to_string(),
        bundle: Vec::new(),
    };
    assert!(s.save_message(&m, b"bundle-bytes").is_ok());
    let got = s.get_message_internal(&"mid".to_string(), &Some("aid".to_string())).unwrap();
    assert_eq!(got.process_id, m.process_id);
    assert_eq!(got.message_id, m.message_id);
    assert_eq!(got.assignment_id, m.assignment_id);
    assert_eq!(got.message, m.message);
    assert_eq!(got.epoch, 3);
    assert_eq!(got.nonce, 17);
    assert_eq!(got.timestamp, 1700000000123);
    assert_eq!(got.hash_chain, "hc");
    assert_eq!(got.data, m.data);
    assert_eq!(got.bundle, b"bundle-bytes".to_vec());
}
