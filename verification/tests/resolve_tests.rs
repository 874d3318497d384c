use traza::export::{export, export_by_prefix};
use traza::record::LogRecord;
use traza::store::LogStore;

fn record(id: i64, hash: &str) -> LogRecord {
    LogRecord {
        id,
        hash: hash.to_string(),
        project: "fpga1".to_string(),
        timestamp: format!("2024-05-01 10:00:{:02}", id),
        tags: String::new(),
        log: format!("log {}", id),
    }
}

#[test]
fn unique_match_is_resolved() {
    let store = LogStore::from_records(vec![record(1, "a1b2c3")], 1).unwrap();
    assert_eq!(store.resolve("a1b").unwrap().id, 1);
    assert_eq!(store.resolve("a1b").unwrap(), &record(1, "a1b2c3"));
    assert!(store.resolve("zz").is_none());
}

#[test]
fn tie_is_broken_by_the_latest_insert() {
    let store =
        LogStore::from_records(vec![record(1, "a1b2c3"), record(2, "a1ffff")], 2).unwrap();
    assert_eq!(store.resolve("a1").unwrap().id, 2);
    assert_eq!(store.resolve("a1b").unwrap().id, 1);
    assert_eq!(store.resolve("a1f").unwrap().id, 2);
}

#[test]
fn tie_between_equal_hashes_is_broken_by_the_latest_insert() {
    let store = LogStore::from_records(
        vec![record(1, "a1b2c3"), record(2, "a1b2c3"), record(3, "ffffff")],
        3,
    )
    .unwrap();
    assert_eq!(store.resolve("a1b2c3").unwrap().id, 2);
    assert_eq!(store.resolve("a").unwrap().id, 2);
}

#[test]
fn tie_break_goes_by_id_not_by_timestamp() {
    let mut early = record(1, "a1b2c3");
    early.timestamp = "2030-01-01 00:00:00".to_string();
    let mut late = record(2, "a1ffff");
    late.timestamp = "2020-01-01 00:00:00".to_string();
    let store = LogStore::from_records(vec![early, late], 2).unwrap();
    assert_eq!(store.resolve("a1").unwrap().id, 2);
}

#[test]
fn empty_prefix_matches_every_record() {
    let store =
        LogStore::from_records(vec![record(1, "a1b2c3"), record(2, "ffffff")], 2).unwrap();
    assert_eq!(store.resolve("").unwrap().id, 2);
    assert!(LogStore::new().resolve("").is_none());
}

#[test]
fn match_is_case_sensitive_and_anchored_at_the_start() {
    let store = LogStore::from_records(vec![record(1, "a1b2c3")], 1).unwrap();
    assert!(store.resolve("A1B").is_none());
    assert!(store.resolve("1b2").is_none());
    assert!(store.resolve("b2c3").is_none());
    assert!(store.resolve("a1b2c3").is_some());
    assert!(store.resolve("a1b2c3d").is_none());
    assert!(store.resolve("a1%").is_none());
    assert!(store.resolve("a_b").is_none());
}

#[test]
fn resolve_does_not_change_the_store() {
    let store =
        LogStore::from_records(vec![record(1, "a1b2c3"), record(2, "a1ffff")], 2).unwrap();
    let before = store.list_recent(10);
    let _ = store.resolve("a1");
    let _ = store.resolve("zz");
    assert_eq!(store.list_recent(10), before);
    assert_eq!(store.len(), 2);
}

#[test]
fn inserted_record_is_found_by_its_own_hash() {
    let mut store = LogStore::new();
    store.insert_at("fpga1", &vec![], "2024-05-01 10:00:00", "one").unwrap();
    store.insert_at("fpga1", &vec![], "2024-05-01 10:00:01", "two").unwrap();
    let hash = store.get(0).unwrap().hash.clone();
    let found = store.resolve(&hash).unwrap();
    assert_eq!(found.hash, hash);
}

#[test]
fn export_names_the_file_after_project_and_hash() {
    let file = export(&record(7, "a1b2c3"), "/home/op");
    assert_eq!(file.path, "/home/op/traza_export_fpga1_a1b2c3.txt");
    assert_eq!(file.contents, "# Project: fpga1\n# Timestamp: 2024-05-01 10:00:07\n\nlog 7");
}

#[test]
fn export_is_stable_across_exports_of_one_record() {
    let first = export(&record(7, "a1b2c3"), "/tmp/out");
    let second = export(&record(7, "a1b2c3"), "/tmp/out");
    assert_eq!(first, second);
}

#[test]
fn export_keeps_the_log_verbatim() {
    let mut rec = record(1, "a1b2c3");
    rec.log = "line 1\n\n# Project: other\n<b>&</b>\n".to_string();
    let file = export(&rec, "out");
    assert_eq!(
        file.contents,
        "# Project: fpga1\n# Timestamp: 2024-05-01 10:00:01\n\nline 1\n\n# Project: other\n<b>&</b>\n"
    );
}

#[test]
fn export_does_not_alter_the_project_name_in_the_path() {
    let mut rec = record(1, "a1b2c3");
    rec.project = "../odd name".to_string();
    let file = export(&rec, "out");
    assert_eq!(file.path, "out/traza_export_../odd name_a1b2c3.txt");
}

#[test]
fn end_to_end_export() {
    let mut store = LogStore::new();
    store.insert_at("fpga1", &vec!["ci".to_string()], "2024-05-01 10:00:00", "build ok").unwrap();
    let h = store.get(0).unwrap().hash.clone();
    let file = export_by_prefix(&store, &h[0..3], "/home/op").unwrap();
    assert_eq!(file.path, format!("/home/op/traza_export_fpga1_{}.txt", h));
    let lines: Vec<&str> = file.contents.lines().collect();
    assert_eq!(lines[0], "# Project: fpga1");
    assert_eq!(lines[1], "# Timestamp: 2024-05-01 10:00:00");
    assert_eq!(lines[2], "");
    assert_eq!(lines[3], "build ok");
    assert_eq!(lines.len(), 4);
}

#[test]
fn export_by_prefix_finds_nothing_for_an_unknown_prefix() {
    let store = LogStore::from_records(vec![record(1, "a1b2c3")], 1).unwrap();
    assert!(export_by_prefix(&store, "zz", "/home/op").is_none());
    assert!(export_by_prefix(&LogStore::new(), "", "/home/op").is_none());
}

#[test]
fn export_by_prefix_exports_the_latest_match() {
    let store =
        LogStore::from_records(vec![record(1, "a1b2c3"), record(2, "a1ffff")], 2).unwrap();
    let file = export_by_prefix(&store, "a1", "d").unwrap();
    assert_eq!(file.path, "d/traza_export_fpga1_a1ffff.txt");
    assert_eq!(file.contents, "# Project: fpga1\n# Timestamp: 2024-05-01 10:00:02\n\nlog 2");
}
