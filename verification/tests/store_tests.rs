use traza::fingerprint::fingerprint;
use traza::record::{comes_before, join_tags, LogRecord};
use traza::store::{InsertError, LogStore};

fn record(id: i64, hash: &str, timestamp: &str) -> LogRecord {
    LogRecord {
        id,
        hash: hash.to_string(),
        project: "fpga1".to_string(),
        timestamp: timestamp.to_string(),
        tags: String::new(),
        log: format!("log {}", id),
    }
}

fn ids(records: &[LogRecord]) -> Vec<i64> {
    records.iter().map(|r| r.id).collect()
}

#[test]
fn new_store_is_empty() {
    let store = LogStore::new();
    assert_eq!(store.len(), 0);
    assert_eq!(store.next_id(), Some(1));
    assert!(store.get(0).is_none());
    assert!(store.list_recent(10).is_empty());
}

#[test]
fn initialize_schema_creates_an_empty_store_when_none_exists() {
    let store = LogStore::initialize_schema(None);
    assert_eq!(store.len(), 0);
    assert_eq!(store.next_id(), Some(1));
}

#[test]
fn initialize_schema_keeps_existing_records() {
    let mut store = LogStore::new();
    store.insert_at("fpga1", &vec![], "2024-05-01 10:00:00", "build ok").unwrap();
    let before = store.list_recent(10);
    let store = LogStore::initialize_schema(Some(store));
    assert_eq!(store.list_recent(10), before);
    let store = LogStore::initialize_schema(Some(store));
    assert_eq!(store.list_recent(10), before);
    assert_eq!(store.next_id(), Some(2));
}

#[test]
fn insert_at_assigns_growing_ids_and_fills_the_record() {
    let mut store = LogStore::new();
    let tags = vec!["ci".to_string(), "nightly".to_string()];
    assert_eq!(store.insert_at("fpga1", &tags, "2024-05-01 10:00:00", "build ok"), Ok(1));
    assert_eq!(store.insert_at("fpga2", &vec![], "2024-05-01 10:00:01", "build failed"), Ok(2));
    assert_eq!(store.len(), 2);
    let first = store.get(0).unwrap();
    assert_eq!(first.id, 1);
    assert_eq!(first.project, "fpga1");
    assert_eq!(first.timestamp, "2024-05-01 10:00:00");
    assert_eq!(first.tags, "ci,nightly");
    assert_eq!(first.log, "build ok");
    assert_eq!(first.hash, fingerprint("fpga1", "2024-05-01 10:00:00", b"build ok"));
    let second = store.get(1).unwrap();
    assert_eq!(second.id, 2);
    assert_eq!(second.tags, "");
    assert_eq!(second.hash, fingerprint("fpga2", "2024-05-01 10:00:01", b"build failed"));
    assert!(store.get(2).is_none());
}

#[test]
fn insert_at_refuses_an_empty_project() {
    let mut store = LogStore::new();
    assert_eq!(
        store.insert_at("", &vec![], "2024-05-01 10:00:00", "build ok"),
        Err(InsertError::MissingProject)
    );
    assert_eq!(store.len(), 0);
    assert_eq!(store.next_id(), Some(1));
}

#[test]
fn insert_at_refuses_when_ids_ran_out() {
    let mut store = LogStore::from_records(vec![record(5, "a1b2c3", "t")], i64::MAX).unwrap();
    assert_eq!(store.next_id(), None);
    assert_eq!(
        store.insert_at("fpga1", &vec![], "2024-05-01 10:00:00", "build ok"),
        Err(InsertError::StoreFull)
    );
    assert_eq!(store.len(), 1);
    assert_eq!(
        store.insert_at("", &vec![], "2024-05-01 10:00:00", "build ok"),
        Err(InsertError::MissingProject)
    );
}

#[test]
fn insert_at_uses_the_last_id_that_is_left() {
    let mut store = LogStore::from_records(vec![], i64::MAX - 1).unwrap();
    assert_eq!(store.insert_at("p", &vec![], "t", "l"), Ok(i64::MAX));
    assert_eq!(store.insert_at("p", &vec![], "t", "l"), Err(InsertError::StoreFull));
}

#[test]
fn insert_stamps_the_record_with_the_current_time() {
    let mut store = LogStore::new();
    let id = store.insert("fpga1", &vec!["ci".to_string()], "build ok").unwrap();
    assert_eq!(id, 1);
    let stored = store.get(0).unwrap();
    assert_eq!(stored.project, "fpga1");
    assert_eq!(stored.tags, "ci");
    assert_eq!(stored.log, "build ok");
    assert_eq!(stored.hash, fingerprint("fpga1", &stored.timestamp, b"build ok"));
    let shape: Vec<char> = stored
        .timestamp
        .chars()
        .map(|c| if c.is_ascii_digit() { '9' } else { c })
        .collect();
    assert_eq!(shape.into_iter().collect::<String>(), "9999-99-99 99:99:99");
}

#[test]
fn insert_refuses_an_empty_project() {
    let mut store = LogStore::new();
    assert_eq!(store.insert("", &vec![], "build ok"), Err(InsertError::MissingProject));
    assert_eq!(store.len(), 0);
}

#[test]
fn insertion_order_is_listed_latest_first() {
    let mut store = LogStore::new();
    let r1 = store.insert_at("fpga1", &vec![], "2024-05-01 10:00:00", "one").unwrap();
    let r2 = store.insert_at("fpga1", &vec![], "2024-05-01 10:00:01", "two").unwrap();
    let r3 = store.insert_at("fpga1", &vec![], "2024-05-01 10:00:02", "three").unwrap();
    let listing = store.list_recent(10);
    assert_eq!(ids(&listing), vec![r3, r2, r1]);
    assert_eq!(listing[0].log, "three");
    assert_eq!(listing[1].log, "two");
    assert_eq!(listing[2].log, "one");
}

#[test]
fn equal_timestamps_are_listed_by_id_descending() {
    let mut store = LogStore::new();
    for log in ["one", "two", "three"] {
        store.insert_at("fpga1", &vec![], "2024-05-01 10:00:00", log).unwrap();
    }
    assert_eq!(ids(&store.list_recent(10)), vec![3, 2, 1]);
}

#[test]
fn listing_goes_by_timestamp_before_id() {
    let store = LogStore::from_records(
        vec![
            record(1, "aaaaaa", "2024-05-03 00:00:00"),
            record(2, "bbbbbb", "2024-05-01 00:00:00"),
            record(3, "cccccc", "2024-05-02 00:00:00"),
            record(4, "dddddd", "2024-05-01 00:00:00"),
        ],
        4,
    )
    .unwrap();
    assert_eq!(ids(&store.list_recent(10)), vec![1, 3, 4, 2]);
    assert_eq!(ids(&store.list_recent(2)), vec![1, 3]);
    assert_eq!(ids(&store.list_recent(3)), vec![1, 3, 4]);
}

#[test]
fn limit_is_enforced() {
    let mut store = LogStore::new();
    for i in 0..150 {
        let timestamp = format!("2024-05-01 10:{:02}:{:02}", i / 60, i % 60);
        store.insert_at("fpga1", &vec![], &timestamp, "build ok").unwrap();
    }
    let listing = store.list_recent(100);
    assert_eq!(listing.len(), 100);
    let expected: Vec<i64> = (51..=150).rev().collect();
    assert_eq!(ids(&listing), expected);
}

#[test]
fn limit_larger_than_the_store_lists_everything() {
    let mut store = LogStore::new();
    for i in 0..5 {
        store.insert_at("fpga1", &vec![], &format!("2024-05-01 10:00:0{}", i), "x").unwrap();
    }
    assert_eq!(ids(&store.list_recent(usize::MAX)), vec![5, 4, 3, 2, 1]);
    assert_eq!(ids(&store.list_recent(5)), vec![5, 4, 3, 2, 1]);
    assert_eq!(ids(&store.list_recent(1)), vec![5]);
    assert!(store.list_recent(0).is_empty());
}

#[test]
fn listing_hands_out_complete_records() {
    let mut store = LogStore::new();
    store.insert_at("fpga1", &vec!["ci".to_string()], "2024-05-01 10:00:00", "build ok").unwrap();
    let listing = store.list_recent(1);
    assert_eq!(&listing[0], store.get(0).unwrap());
}

#[test]
fn delete_all_returns_the_count_and_leaves_nothing() {
    let mut store = LogStore::new();
    for i in 0..7 {
        store.insert_at("fpga1", &vec![], &format!("2024-05-01 10:00:0{}", i), "x").unwrap();
    }
    assert_eq!(store.delete_all(), 7);
    assert_eq!(store.len(), 0);
    assert!(store.list_recent(1).is_empty());
    assert!(store.list_recent(100).is_empty());
    assert!(store.list_recent(usize::MAX).is_empty());
    assert!(store.resolve("").is_none());
}

#[test]
fn delete_all_on_an_empty_store_returns_zero() {
    let mut store = LogStore::new();
    assert_eq!(store.delete_all(), 0);
    assert_eq!(store.delete_all(), 0);
    assert!(store.list_recent(10).is_empty());
}

#[test]
fn ids_are_not_handed_out_again_after_delete_all() {
    let mut store = LogStore::new();
    store.insert_at("fpga1", &vec![], "2024-05-01 10:00:00", "x").unwrap();
    store.insert_at("fpga1", &vec![], "2024-05-01 10:00:01", "y").unwrap();
    store.delete_all();
    assert_eq!(store.insert_at("fpga1", &vec![], "2024-05-01 10:00:02", "z"), Ok(3));
    assert_eq!(ids(&store.list_recent(10)), vec![3]);
}

#[test]
fn from_records_accepts_growing_ids() {
    let store = LogStore::from_records(
        vec![record(2, "a", "t"), record(5, "b", "t"), record(9, "c", "t")],
        12,
    )
    .unwrap();
    assert_eq!(store.len(), 3);
    assert_eq!(store.next_id(), Some(13));
    assert_eq!(store.get(1).unwrap().id, 5);
}

#[test]
fn from_records_accepts_an_empty_table() {
    let store = LogStore::from_records(vec![], 0).unwrap();
    assert_eq!(store.len(), 0);
    assert_eq!(store.next_id(), Some(1));
}

#[test]
fn from_records_refuses_ids_that_do_not_grow() {
    assert!(LogStore::from_records(vec![record(2, "a", "t"), record(2, "b", "t")], 9).is_none());
    assert!(LogStore::from_records(vec![record(3, "a", "t"), record(2, "b", "t")], 9).is_none());
    assert!(LogStore::from_records(
        vec![record(1, "a", "t"), record(3, "b", "t"), record(2, "c", "t")],
        9
    )
    .is_none());
}

#[test]
fn from_records_refuses_an_id_above_the_last_one_handed_out() {
    assert!(LogStore::from_records(vec![record(1, "a", "t"), record(4, "b", "t")], 3).is_none());
    assert!(LogStore::from_records(vec![record(1, "a", "t")], 0).is_none());
    assert!(LogStore::from_records(vec![record(1, "a", "t"), record(4, "b", "t")], 4).is_some());
}

#[test]
fn comes_before_is_the_listing_order() {
    let early = record(1, "a", "2024-05-01 10:00:00");
    let late = record(2, "b", "2024-05-01 10:00:01");
    let tie = record(3, "c", "2024-05-01 10:00:01");
    assert!(comes_before(&late, &early));
    assert!(!comes_before(&early, &late));
    assert!(comes_before(&tie, &late));
    assert!(!comes_before(&late, &tie));
    assert!(!comes_before(&late, &late));
    let older_but_inserted_later = record(9, "d", "2024-04-30 23:59:59");
    assert!(comes_before(&early, &older_but_inserted_later));
}

#[test]
fn duplicate_copies_every_field() {
    let original = LogRecord {
        id: 7,
        hash: "a1b2c3".to_string(),
        project: "fpga1".to_string(),
        timestamp: "2024-05-01 10:00:00".to_string(),
        tags: "ci,nightly".to_string(),
        log: "build ok\n".to_string(),
    };
    assert_eq!(original.duplicate(), original);
}

#[test]
fn join_tags_uses_commas() {
    assert_eq!(join_tags(&vec![]), "");
    assert_eq!(join_tags(&vec!["ci".to_string()]), "ci");
    assert_eq!(join_tags(&vec!["ci".to_string(), "nightly".to_string()]), "ci,nightly");
}

#[test]
fn join_tags_does_not_escape_a_comma_inside_a_tag() {
    assert_eq!(join_tags(&vec!["a,b".to_string(), "c".to_string()]), "a,b,c");
}

#[test]
fn restore_continues_after_the_kept_counter() {
    let store =
        LogStore::restore(vec![record(2, "a", "t"), record(5, "b", "t")], Some(9)).unwrap();
    assert_eq!(store.len(), 2);
    assert_eq!(store.next_id(), Some(10));
}

#[test]
fn restore_brings_a_lagging_counter_up_to_the_records() {
    let store =
        LogStore::restore(vec![record(2, "a", "t"), record(5, "b", "t")], Some(3)).unwrap();
    assert_eq!(store.next_id(), Some(6));
    let store = LogStore::restore(vec![record(2, "a", "t")], None).unwrap();
    assert_eq!(store.next_id(), Some(3));
    let store = LogStore::restore(vec![record(2, "a", "t")], Some(-4)).unwrap();
    assert_eq!(store.next_id(), Some(3));
}

#[test]
fn restore_of_nothing_starts_at_one_or_after_the_counter() {
    assert_eq!(LogStore::restore(vec![], None).unwrap().next_id(), Some(1));
    assert_eq!(LogStore::restore(vec![], Some(0)).unwrap().next_id(), Some(1));
    assert_eq!(LogStore::restore(vec![], Some(150)).unwrap().next_id(), Some(151));
    assert_eq!(LogStore::restore(vec![], Some(i64::MAX)).unwrap().next_id(), None);
}

#[test]
fn restore_keeps_records_with_ids_below_one() {
    let store =
        LogStore::restore(vec![record(-7, "a", "t"), record(-2, "b", "t")], None).unwrap();
    assert_eq!(store.len(), 2);
    assert_eq!(store.next_id(), Some(1));
}

#[test]
fn restore_refuses_ids_that_do_not_grow() {
    assert!(LogStore::restore(vec![record(2, "a", "t"), record(2, "b", "t")], Some(9)).is_none());
    assert!(LogStore::restore(vec![record(3, "a", "t"), record(1, "b", "t")], None).is_none());
}
