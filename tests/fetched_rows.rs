use dashmap::DashMap;
use su_store::error::StoreErrorType;
use su_store::model::{DbMessage, DbMessageWithoutData, Message};
use su_store::rows::{
    assemble_page, canonical_message, existing_decision, insert_outcome, keyed_message,
    lookup_bundles, newest_message, page_from_rows, page_of_rows,
};
use su_store::store::TableModel;

fn row(id: i32, mid: &str, aid: Option<&str>, content: bool, ts: i64) -> DbMessage {
    DbMessage {
        row_id: id,
        message: Message {
            process_id: "p".to_string(),
            message_id: mid.to_string(),
            assignment_id: aid.map(|a| a.to_string()),
            message: if content { Some(mid.to_string()) } else { None },
            epoch: 0,
            nonce: id,
            timestamp: ts,
            hash_chain: "h".to_string(),
            data: "{}".to_string(),
            bundle: format!("b{}", id).into_bytes(),
        },
    }
}

fn bare(r: &DbMessage) -> DbMessageWithoutData {
    DbMessageWithoutData {
        row_id: r.row_id,
        process_id: r.message.process_id.clone(),
        message_id: r.message.message_id.clone(),
        assignment_id: r.message.assignment_id.clone(),
        message: r.message.message.clone(),
        epoch: r.message.epoch,
        nonce: r.message.nonce,
        timestamp: r.message.timestamp,
        hash_chain: r.message.hash_chain.clone(),
        data: r.message.data.clone(),
    }
}

#[test]
fn fetched_canonical_prefers_earliest_timestamp() {
    let rows = vec![row(2, "m", Some("a2"), false, 20), row(5, "m", Some("a1"), true, 10)];
    let m = canonical_message(&rows, "m").unwrap();
    assert_eq!(m.assignment_id, Some("a1".to_string()));
    assert!(m.message.is_some());
    let tie = vec![row(7, "m", Some("x"), false, 10), row(3, "m", Some("y"), true, 10)];
    assert_eq!(canonical_message(&tie, "m").unwrap().assignment_id, Some("y".to_string()));
    assert!(matches!(canonical_message(&rows, "zz"), Err(StoreErrorType::NotFound(_))));
}

#[test]
fn fetched_keyed_lookup() {
    let rows = vec![row(1, "m", Some("a1"), true, 10), row(2, "m", Some("a2"), false, 20)];
    let m = keyed_message(&rows, &"m".to_string(), &Some("a2".to_string())).unwrap();
    assert_eq!(m.bundle, b"b2".to_vec());
    assert_eq!(keyed_message(&rows, &"m".to_string(), &None).unwrap().bundle, b"b1".to_vec());
}

#[test]
fn fetched_newest_by_row_id() {
    assert!(newest_message(&Vec::new(), "p").is_none());
    let rows = vec![row(4, "m1", Some("a"), true, 50), row(9, "m2", Some("b"), true, 1)];
    assert_eq!(newest_message(&rows, "p").unwrap().message_id, "m2");
    assert!(newest_message(&rows, "q").is_none());
}

#[test]
fn fetched_page_of_limit_plus_one_rows() {
    let rows: Vec<DbMessage> = (0..5001).map(|i| row(i + 1, "m", Some("a"), false, i as i64)).collect();
    let page = page_from_rows(&rows, 5000);
    assert_eq!(page.messages.len(), 5000);
    assert!(page.has_next_page);
    let exact: Vec<DbMessage> = (0..5000).map(|i| row(i + 1, "m", Some("a"), false, i as i64)).collect();
    let page = page_from_rows(&exact, 5000);
    assert_eq!(page.messages.len(), 5000);
    assert!(!page.has_next_page);
}

#[test]
fn fetched_page_without_bundles_truncates() {
    let rows: Vec<DbMessageWithoutData> = (0..3).map(|i| bare(&row(i + 1, "m", Some("a"), false, i as i64))).collect();
    let page = page_of_rows(rows, 2);
    assert_eq!(page.rows.len(), 2);
    assert!(page.has_next_page);
}

#[test]
fn duplicate_decision_from_lookup() {
    let content = row(1, "m", Some("a"), true, 1).message;
    let assignment = row(2, "m", Some("b"), false, 2).message;
    assert!(matches!(
        existing_decision(&content, &Ok(content.duplicate())),
        Err(StoreErrorType::MessageExists(_))
    ));
    assert!(existing_decision(&content, &Ok(assignment.duplicate())).is_ok());
    assert!(existing_decision(&content, &Err(StoreErrorType::NotFound("x".to_string()))).is_ok());
    assert!(matches!(
        existing_decision(&content, &Err(StoreErrorType::JsonError("x".to_string()))),
        Err(StoreErrorType::DatabaseError(_))
    ));
    assert!(existing_decision(&assignment, &Ok(content.duplicate())).is_ok());
}

#[test]
fn insert_outcome_by_row_count() {
    assert_eq!(insert_outcome(1).unwrap(), "saved");
    assert!(matches!(insert_outcome(0), Err(StoreErrorType::DatabaseError(_))));
}

#[test]
fn bundles_from_disk_with_row_fallback() {
    let stored = vec![row(1, "m1", Some("a1"), true, 1), row(2, "m2", Some("a2"), true, 2)];
    let page = page_of_rows(stored.iter().map(bare).collect(), 10);
    let keys = TableModel::page_keys(&page);
    let binaries = DashMap::new();
    binaries.insert(keys[0].clone(), b"disk".to_vec());
    let found = lookup_bundles(&page, binaries);
    assert_eq!(found[0], Some(b"disk".to_vec()));
    assert_eq!(found[1], None);
    let fallback = vec![None, Some(stored[1].message.duplicate())];
    let out = assemble_page(&page, found.clone(), fallback).unwrap();
    assert_eq!(out.messages[0].bundle, b"disk".to_vec());
    assert_eq!(out.messages[1].bundle, b"b2".to_vec());
    assert!(matches!(
        assemble_page(&page, found, vec![None, None]),
        Err(StoreErrorType::NotFound(_))
    ));
}
