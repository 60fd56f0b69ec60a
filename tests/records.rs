use su_store::bytestore::ByteStore;
use su_store::error::StoreErrorType;
use su_store::model::{Process, ProcessScheduler, Scheduler};
use su_store::store::TableModel;

fn store() -> TableModel {
    TableModel::new(false, ByteStore::new("/data".to_string(), 2))
}

#[test]
fn process_round_trip_and_idempotent_save() {
    let mut s = store();
    let p = Process { process_id: "proc".to_string(), process_data: "{\"tags\":[1,2]}".to_string() };
    assert_eq!(s.save_process(&p, b"bundle").unwrap(), "saved");
    let other = Process { process_id: "proc".to_string(), process_data: "{}".to_string() };
    assert_eq!(s.save_process(&other, b"x").unwrap(), "saved");
    let got = s.get_process("proc").unwrap();
    assert_eq!(got.process_id, "proc");
    assert_eq!(got.process_data, "{\"tags\":[1,2]}");
    assert!(matches!(s.get_process("none"), Err(StoreErrorType::NotFound(_))));
}

#[test]
fn schedulers_save_get_update_list() {
    let mut s = store();
    let a = Scheduler { row_id: None, url: "https://a".to_string(), process_count: 1 };
    let b = Scheduler { row_id: None, url: "https://b".to_string(), process_count: 2 };
    assert!(s.save_scheduler(&a).is_ok());
    assert!(s.save_scheduler(&b).is_ok());
    assert!(s.save_scheduler(&a).is_ok());
    let all = s.get_all_schedulers().unwrap();
    assert_eq!(all.len(), 2);
    assert_eq!(all[0].row_id, Some(1));
    assert_eq!(all[1].url, "https://b");
    let by_url = s.get_scheduler_by_url(&"https://b".to_string()).unwrap();
    assert_eq!(by_url.row_id, Some(2));
    assert_eq!(by_url.process_count, 2);
    let upd = Scheduler { row_id: Some(2), url: "https://c".to_string(), process_count: 9 };
    assert_eq!(s.update_scheduler(&upd).unwrap(), "updated");
    let got = s.get_scheduler(&2).unwrap();
    assert_eq!(got.url, "https://c");
    assert_eq!(got.process_count, 9);
    let clash = Scheduler { row_id: Some(2), url: "https://a".to_string(), process_count: 0 };
    assert!(matches!(s.update_scheduler(&clash), Err(StoreErrorType::DatabaseError(_))));
    let absent = Scheduler { row_id: Some(7), url: "https://z".to_string(), process_count: 0 };
    assert!(s.update_scheduler(&absent).is_ok());
    assert!(matches!(s.get_scheduler(&7), Err(StoreErrorType::NotFound(_))));
    assert!(matches!(
        s.get_scheduler_by_url(&"https://b".to_string()),
        Err(StoreErrorType::NotFound(_))
    ));
}

#[test]
fn process_scheduler_save_and_get() {
    let mut s = store();
    let ps = ProcessScheduler { row_id: None, process_id: "proc".to_string(), scheduler_row_id: 3 };
    assert!(s.save_process_scheduler(&ps).is_ok());
    let again = ProcessScheduler { row_id: None, process_id: "proc".to_string(), scheduler_row_id: 4 };
    assert!(s.save_process_scheduler(&again).is_ok());
    let got = s.get_process_scheduler("proc").unwrap();
    assert_eq!(got.row_id, Some(1));
    assert_eq!(got.scheduler_row_id, 3);
    assert!(matches!(s.get_process_scheduler("other"), Err(StoreErrorType::NotFound(_))));
}
