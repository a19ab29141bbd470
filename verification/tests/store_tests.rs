use clippoo::store::ClipboardEntry;
use clippoo::store::Database;
use clippoo::store::StorageError;

fn contents(db: &Database, limit: i64) -> Vec<String> {
    db.get_recent_entries(limit).into_iter().map(|e| e.content).collect()
}

#[test]
fn test_basic_setup() {
    // Basic sanity test
    assert!(true);
}

#[test]
fn three_adds_set_default_and_order() {
    let mut db = Database::new();
    db.add_entry("a".to_string()).unwrap();
    db.add_entry("b".to_string()).unwrap();
    db.add_entry("c".to_string()).unwrap();

    let default = db.get_default_entry().unwrap();
    assert_eq!(default.content, "c");
    assert!(default.is_default);

    assert_eq!(contents(&db, 3), vec!["c", "b", "a"]);
}

#[test]
fn dedup_refreshes_timestamp_but_not_default() {
    let mut db = Database::new();
    db.add_entry("a".to_string()).unwrap();
    db.add_entry("b".to_string()).unwrap();
    db.add_entry("c".to_string()).unwrap();

    // Re-adding "a" must not add a row and must leave "c" the default.
    db.add_entry("a".to_string()).unwrap();

    let default = db.get_default_entry().unwrap();
    assert_eq!(default.content, "c");
    assert_eq!(db.get_recent_entries(10).len(), 3);
    assert_eq!(contents(&db, 3), vec!["a", "c", "b"]);
}

#[test]
fn distinct_adds_grow_one_row_each() {
    let mut db = Database::new();
    for i in 0..7 {
        db.add_entry(format!("content {}", i)).unwrap();
        assert_eq!(db.get_recent_entries(100).len(), i + 1);
    }
}

#[test]
fn cap_keeps_the_fifty_most_recent() {
    let mut db = Database::new();
    for i in 0..55 {
        db.add_entry(format!("c{:02}", i)).unwrap();
    }
    let live = contents(&db, 60);
    assert_eq!(live.len(), 50);
    // Most recent first: c54 down to c05.
    for (pos, content) in live.iter().enumerate() {
        assert_eq!(content, &format!("c{:02}", 54 - pos));
    }
    // The five oldest were evicted.
    for i in 0..5 {
        assert!(!live.contains(&format!("c{:02}", i)));
    }
}

#[test]
fn recent_entries_strictly_ordered_and_limited() {
    let mut db = Database::new();
    for i in 0..10 {
        db.add_entry(format!("x{}", i)).unwrap();
    }
    let top = db.get_recent_entries(4);
    assert_eq!(top.len(), 4);
    for w in top.windows(2) {
        assert!(w[0].timestamp > w[1].timestamp);
    }
    assert_eq!(db.get_recent_entries(0).len(), 0);
    assert_eq!(db.get_recent_entries(-3).len(), 0);
    assert_eq!(db.get_recent_entries(100).len(), 10);
}

#[test]
fn set_default_promotes_an_older_entry() {
    let mut db = Database::new();
    db.add_entry("a".to_string()).unwrap();
    db.add_entry("b".to_string()).unwrap();
    let a_id = db
        .get_recent_entries(10)
        .into_iter()
        .find(|e| e.content == "a")
        .unwrap()
        .id;

    db.set_default_entry(a_id).unwrap();
    let default = db.get_default_entry().unwrap();
    assert_eq!(default.content, "a");

    // Exactly one default among the live entries.
    let defaults = db.get_recent_entries(10).into_iter().filter(|e| e.is_default).count();
    assert_eq!(defaults, 1);
}

#[test]
fn set_default_with_unknown_id_is_an_error_and_keeps_the_default() {
    // An id that matches no live entry (e.g. one already evicted) is
    // reported as not found and the previous default survives, rather than
    // silently leaving the store with no default at all.
    let mut db = Database::new();
    db.add_entry("a".to_string()).unwrap();
    db.add_entry("b".to_string()).unwrap();

    assert_eq!(db.set_default_entry(9999), Err(StorageError::EntryNotFound));
    let default = db.get_default_entry().unwrap();
    assert_eq!(default.content, "b");
}

#[test]
fn empty_store_has_no_default() {
    let db = Database::new();
    assert!(db.get_default_entry().is_none());
    assert_eq!(db.get_recent_entries(10).len(), 0);
}

fn row(id: i64, content: &str, timestamp: i64, is_default: bool) -> ClipboardEntry {
    ClipboardEntry { id, content: content.to_string(), timestamp, is_default }
}

#[test]
fn load_resumes_counters_past_the_rows() {
    let rows = vec![row(7, "new", 30, true), row(2, "old", 20, false)];
    let mut db = Database::load(rows).unwrap();
    assert_eq!(contents(&db, 10), vec!["new", "old"]);
    assert_eq!(db.get_default_entry().unwrap().content, "new");

    db.add_entry("fresh".to_string()).unwrap();
    let top = db.get_recent_entries(1);
    assert_eq!(top[0].content, "fresh");
    assert_eq!(top[0].id, 8);
    assert_eq!(top[0].timestamp, 31);
}

#[test]
fn load_rejects_bad_rows() {
    // Duplicate contents.
    let r = Database::load(vec![row(1, "same", 20, true), row(0, "same", 10, false)]);
    assert_eq!(r.err().unwrap(), StorageError::InvalidData);

    // Two defaults.
    let r = Database::load(vec![row(1, "a", 20, true), row(0, "b", 10, true)]);
    assert_eq!(r.err().unwrap(), StorageError::InvalidData);

    // No default although rows exist.
    let r = Database::load(vec![row(1, "a", 20, false), row(0, "b", 10, false)]);
    assert_eq!(r.err().unwrap(), StorageError::InvalidData);

    // Not in strict recency order.
    let r = Database::load(vec![row(1, "a", 10, true), row(0, "b", 20, false)]);
    assert_eq!(r.err().unwrap(), StorageError::InvalidData);

    // Duplicate ids.
    let r = Database::load(vec![row(1, "a", 20, true), row(1, "b", 10, false)]);
    assert_eq!(r.err().unwrap(), StorageError::InvalidData);

    // Over the cap.
    let mut rows = Vec::new();
    for i in 0..51i64 {
        rows.push(row(i, &format!("c{}", i), 1000 - i, i == 0));
    }
    assert_eq!(Database::load(rows).err().unwrap(), StorageError::InvalidData);

    // An empty table is fine.
    let db = Database::load(Vec::new()).unwrap();
    assert!(db.get_default_entry().is_none());
}

#[test]
fn add_fails_cleanly_when_the_clock_is_exhausted() {
    let rows = vec![row(0, "pinned", i64::MAX, true)];
    let mut db = Database::load(rows).unwrap();

    // Both the dedup path and the insert path need a fresh instant.
    assert_eq!(db.add_entry("pinned".to_string()), Err(StorageError::CounterExhausted));
    assert_eq!(db.add_entry("other".to_string()), Err(StorageError::CounterExhausted));

    // The store is untouched.
    assert_eq!(contents(&db, 10), vec!["pinned"]);
    assert_eq!(db.get_default_entry().unwrap().content, "pinned");
}

#[test]
fn add_fails_cleanly_when_ids_are_exhausted() {
    let rows = vec![row(i64::MAX - 1, "old", 5, true)];
    let mut db = Database::load(rows).unwrap();

    // A dedup hit needs no new id and still works...
    db.add_entry("old".to_string()).unwrap();
    // ...but a brand-new content would need the unavailable id.
    assert_eq!(db.add_entry("new".to_string()), Err(StorageError::CounterExhausted));
    assert_eq!(contents(&db, 10), vec!["old"]);
}
