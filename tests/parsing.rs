use su_store::bytestore::ByteStore;
use su_store::cursor::{parse_i64, parse_timestamp};
use su_store::error::StoreErrorType;
use su_store::migration::{migration_batches, parse_range, total_count};
use su_store::store::page_query;

#[test]
fn parses_decimal_integers() {
    assert_eq!(parse_i64("123"), Some(123));
    assert_eq!(parse_i64("-5"), Some(-5));
    assert_eq!(parse_i64("+7"), Some(7));
    assert_eq!(parse_i64("0"), Some(0));
    assert_eq!(parse_i64("9223372036854775807"), Some(i64::MAX));
    assert_eq!(parse_i64("-9223372036854775808"), Some(i64::MIN));
    assert_eq!(parse_i64("9223372036854775808"), None);
    assert_eq!(parse_i64(""), None);
    assert_eq!(parse_i64("-"), None);
    assert_eq!(parse_i64("1 2"), None);
    assert_eq!(parse_i64("12a"), None);
}

#[test]
fn timestamp_errors_are_int_errors() {
    assert_eq!(parse_timestamp("1700000000000").unwrap(), 1700000000000);
    assert!(matches!(parse_timestamp("abc"), Err(StoreErrorType::IntError(_))));
}

#[test]
fn page_query_defaults() {
    let q = page_query(&None, &None, &None).unwrap();
    assert_eq!(q.limit, 5000);
    assert_eq!(q.from, None);
    let q = page_query(&Some("5".to_string()), &Some("9".to_string()), &Some(3)).unwrap();
    assert_eq!((q.from, q.to, q.limit), (Some(5), Some(9), 3));
}

#[test]
fn parses_migration_ranges() {
    assert_eq!(parse_range("10-20"), Some((10, Some(20))));
    assert_eq!(parse_range("10"), Some((10, None)));
    assert_eq!(parse_range("10-"), Some((10, None)));
    assert_eq!(parse_range("x-2"), None);
    assert_eq!(parse_range("1-y"), None);
    assert_eq!(parse_range(""), None);
}

#[test]
fn migration_totals() {
    assert_eq!(total_count(10, Some(20), 100), 10);
    assert_eq!(total_count(10, Some(200), 100), 90);
    assert_eq!(total_count(10, None, 100), 90);
}

#[test]
fn migration_batches_step_and_cap() {
    assert_eq!(migration_batches(0, Some(25), 100, 10), vec![(0, 10), (10, 20), (20, 25)]);
    assert_eq!(migration_batches(5, None, 20, 10), vec![(5, 15), (15, 25)]);
    assert_eq!(migration_batches(0, Some(500), 12, 5), vec![(0, 5), (5, 10), (10, 15)]);
    assert_eq!(migration_batches(30, None, 20, 10), Vec::<(i64, i64)>::new());
}

#[test]
fn bundle_paths() {
    let b = ByteStore::new("/data/su".to_string(), 8);
    assert_eq!(b.process_dir("proc"), "/data/su/proc");
    assert_eq!(b.create_filepath("m1", &None, "proc"), "/data/su/proc/msg___m1");
    assert_eq!(
        b.create_filepath("m1", &Some("a1".to_string()), "proc"),
        "/data/su/proc/msg___m1___assign___a1"
    );
}

#[test]
fn bundle_writes_never_overwrite() {
    let first = ByteStore::save_plan(false, false);
    assert!(first.create_dir && first.write_file);
    let second = ByteStore::save_plan(true, true);
    assert!(!second.create_dir && !second.write_file);
}

#[test]
fn error_detail_is_kept() {
    let e = StoreErrorType::NotFound("Message not found".to_string());
    assert_eq!(e.detail(), "Message not found");
}
