use std::sync::Arc;
use tempx::ids::{id_to_string, upload_path, VERSION_4, VERSION_MASK};
use tempx::ms::Ms;
use tempx::reaper::{Deleter, ReaperState, SchecludedDelete, WakeAction};
use tempx::store::FileDatabase;

const A: u128 = 0xa;

fn p(dir: &str, id: u128) -> String {
    format!("{}/{}", dir, id_to_string(id))
}
const B: u128 = 0xb;

fn ms(n: u64) -> Ms {
    Ms::from_millis(n)
}

#[test]
fn put_then_get() {
    let mut db = FileDatabase::new();
    assert!(db.add_file_by_id(A, "x", None, Some("text/plain".to_string())).is_none());
    let rec = db.get_file(A).unwrap();
    assert_eq!(rec.id, A);
    assert_eq!(rec.path, p("x", A));
    assert_eq!(rec.content_type.as_deref(), Some("text/plain"));
    assert!(db.file_exists(A));
    assert!(!db.file_exists(B));
}

#[test]
fn remove_absent_gives_nothing() {
    let mut db = FileDatabase::new();
    assert!(db.remove_file(A).is_none());
    db.add_file_by_id(B, "b", None, None);
    assert!(db.remove_file(A).is_none());
    assert!(db.file_exists(B));
}

#[test]
fn replace_hands_back_old_record() {
    let mut db = FileDatabase::new();
    db.add_file_by_id(A, "x1", None, None);
    let old = db.add_file_by_id(A, "x2", None, None).unwrap();
    assert_eq!(old.path, p("x1", A));
    assert_eq!(db.get_file(A).unwrap().path, p("x2", A));
}

#[test]
fn each_record_released_once() {
    let mut db = FileDatabase::new();
    let mut released = Vec::new();
    for dir in ["p1", "p2", "p3"] {
        if let Some(old) = db.add_file_by_id(A, dir, None, None) {
            released.push(old.path.clone());
        }
        let _ = db.get_file(A);
    }
    if let Some(old) = db.remove_file(A) {
        released.push(old.path.clone());
    }
    assert!(db.remove_file(A).is_none());
    assert_eq!(released, vec![p("p1", A), p("p2", A), p("p3", A)]);
}

#[test]
fn add_file_uses_fresh_id() {
    let mut db = FileDatabase::new();
    let (id, replaced) = db.add_file("f", Some("txt"), None);
    assert!(replaced.is_none());
    assert_eq!(id & VERSION_MASK, VERSION_4);
    assert_eq!(db.get_file(id).unwrap().path, format!("f/{}.txt", id_to_string(id)));
    assert_eq!(db.get_file(id).unwrap().id, id);
}

#[test]
fn reader_keeps_record_across_remove() {
    let mut db = FileDatabase::new();
    db.add_file_by_id(A, "x", None, None);
    let reader = db.get_file(A).unwrap();
    let removed = db.remove_file(A).unwrap();
    assert!(db.get_file(A).is_none());
    assert_eq!(reader.path, p("x", A));
    assert!(Arc::ptr_eq(&reader, &removed));
}

#[test]
fn schedule_entry_expiry() {
    let e = SchecludedDelete::new(ms(100), A, 1000);
    assert!(!e.expired(1099));
    assert!(e.expired(1100));
    assert!(!e.expired(10));
}

#[test]
fn ttl_eviction_end_to_end() {
    let mut db = FileDatabase::new();
    let mut reaper = Deleter::new();
    assert!(reaper.start());
    db.add_file_by_id(A, "x", None, None);
    reaper.scheclude_delete(A, ms(100), 0);
    assert_eq!(db.get_file(A).unwrap().path, p("x", A));
    let (action, evicted) = reaper.on_wake(150, &mut db);
    assert_eq!(action, WakeAction::Continue);
    assert_eq!(evicted.len(), 1);
    assert_eq!(evicted[0].path, p("x", A));
    assert!(db.get_file(A).is_none());
}

#[test]
fn sweep_after_explicit_remove() {
    let mut db = FileDatabase::new();
    let mut reaper = Deleter::new();
    db.add_file_by_id(B, "b", None, None);
    reaper.scheclude_delete(B, ms(10), 0);
    assert!(db.remove_file(B).is_some());
    let evicted = reaper.process_scheclude(20, &mut db);
    assert!(evicted.is_empty());
    assert!(reaper.process_scheclude(30, &mut db).is_empty());
}

#[test]
fn reschedule_replaces_deadline() {
    let mut db = FileDatabase::new();
    let mut reaper = Deleter::new();
    db.add_file_by_id(A, "x1", None, None);
    reaper.scheclude_delete(A, ms(100), 0);
    db.add_file_by_id(A, "x2", None, None);
    reaper.scheclude_delete(A, ms(100), 80);
    assert!(reaper.process_scheclude(150, &mut db).is_empty());
    assert_eq!(db.get_file(A).unwrap().path, p("x2", A));
    let evicted = reaper.process_scheclude(180, &mut db);
    assert_eq!(evicted.len(), 1);
    assert_eq!(evicted[0].path, p("x2", A));
}

#[test]
fn sweep_keeps_pending_entries() {
    let mut db = FileDatabase::new();
    let mut reaper = Deleter::new();
    db.add_file_by_id(A, "a", None, None);
    db.add_file_by_id(B, "b", None, None);
    reaper.scheclude_delete(A, ms(10), 0);
    reaper.scheclude_delete(B, ms(50), 0);
    let evicted = reaper.process_scheclude(10, &mut db);
    assert_eq!(evicted.len(), 1);
    assert_eq!(evicted[0].id, A);
    assert!(db.file_exists(B));
    assert_eq!(reaper.schecluded_deletes.len(), 1);
    assert_eq!(reaper.schecluded_deletes[0].id, B);
}

#[test]
fn stop_twice_is_safe() {
    let mut db = FileDatabase::new();
    let mut reaper = Deleter::new();
    assert!(!reaper.request_stop());
    assert!(reaper.start());
    assert!(!reaper.start());
    assert!(reaper.request_stop());
    assert_eq!(reaper.state, ReaperState::Stopping);
    assert!(!reaper.request_stop());
    let (action, evicted) = reaper.on_wake(1000, &mut db);
    assert_eq!(action, WakeAction::Exit);
    assert!(evicted.is_empty());
    reaper.finish_stop();
    assert_eq!(reaper.state, ReaperState::Stopped);
    assert!(!reaper.request_stop());
}

#[test]
fn stop_skips_sweep() {
    let mut db = FileDatabase::new();
    let mut reaper = Deleter::new();
    reaper.start();
    db.add_file_by_id(A, "a", None, None);
    reaper.scheclude_delete(A, ms(1), 0);
    reaper.request_stop();
    let (action, _) = reaper.on_wake(100, &mut db);
    assert_eq!(action, WakeAction::Exit);
    assert!(db.file_exists(A));
}

#[test]
fn stored_path_named_from_id_and_extension() {
    let mut db = FileDatabase::new();
    let id: u128 = 0x2f327c1e_2764_43b7_8e32_c785072d1f3c;
    db.add_file_by_id(id, "/tmp/up", Some("json"), Some("application/json".to_string()));
    let rec = db.get_file(id).unwrap();
    assert_eq!(rec.path, "/tmp/up/2f327c1e-2764-43b7-8e32-c785072d1f3c.json");
    assert_eq!(rec.path, upload_path("/tmp/up", id, Some("json")));
    assert_eq!(upload_path("d", id, None), "d/2f327c1e-2764-43b7-8e32-c785072d1f3c");
}
