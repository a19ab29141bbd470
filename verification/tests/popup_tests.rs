use clippoo::popup::filter_entries;
use clippoo::popup::navigation_target;
use clippoo::popup::quick_select_index;
use clippoo::popup::row_label;
use clippoo::store::ClipboardEntry;

fn entry(id: i64, content: &str) -> ClipboardEntry {
    ClipboardEntry { id, content: content.to_string(), timestamp: 100 - id, is_default: id == 0 }
}

#[test]
fn search_is_case_insensitive() {
    let entries = vec![entry(0, "Hello World"), entry(1, "HELLO AGAIN"), entry(2, "goodbye")];
    // Would fail if case folding handed its argument back unchanged.
    let hits = filter_entries(&entries, "hello");
    assert_eq!(hits.len(), 2);
    assert_eq!(hits[0].content, "Hello World");
    assert_eq!(hits[1].content, "HELLO AGAIN");

    let hits = filter_entries(&entries, "GOOD");
    assert_eq!(hits.len(), 1);
    assert_eq!(hits[0].content, "goodbye");
}

#[test]
fn empty_query_keeps_everything() {
    let entries: Vec<ClipboardEntry> =
        (0..20).map(|i| entry(i, &format!("item {}", i))).collect();
    let hits = filter_entries(&entries, "");
    assert_eq!(hits.len(), 20);
    for (i, e) in hits.iter().enumerate() {
        assert_eq!(e.content, format!("item {}", i));
    }
}

#[test]
fn search_caps_the_match_count() {
    let entries: Vec<ClipboardEntry> =
        (0..40).map(|i| entry(i, &format!("match {}", i))).collect();
    let hits = filter_entries(&entries, "match");
    assert_eq!(hits.len(), 15);
    // Store order is kept.
    for (i, e) in hits.iter().enumerate() {
        assert_eq!(e.content, format!("match {}", i));
    }
}

#[test]
fn non_matching_entries_are_dropped_in_order() {
    let entries = vec![entry(0, "alpha"), entry(1, "beta"), entry(2, "alphabet")];
    let hits = filter_entries(&entries, "alpha");
    assert_eq!(hits.len(), 2);
    assert_eq!(hits[0].content, "alpha");
    assert_eq!(hits[1].content, "alphabet");
}

#[test]
fn navigation_steps_stay_inside_the_list() {
    assert_eq!(navigation_target(3, None, true), Some(0));
    assert_eq!(navigation_target(3, None, false), None);
    assert_eq!(navigation_target(3, Some(0), true), Some(1));
    assert_eq!(navigation_target(3, Some(2), true), None);
    assert_eq!(navigation_target(3, Some(2), false), Some(1));
    assert_eq!(navigation_target(3, Some(0), false), None);
    assert_eq!(navigation_target(0, None, true), None);
}

#[test]
fn digit_keys_pick_the_first_nine_rows() {
    assert_eq!(quick_select_index(0), None);
    assert_eq!(quick_select_index(1), Some(0));
    assert_eq!(quick_select_index(9), Some(8));
    assert_eq!(quick_select_index(10), None);
}

#[test]
fn long_rows_are_truncated_with_an_ellipsis() {
    let short = "short enough";
    assert_eq!(row_label(short), short);

    let exact: String = "x".repeat(80);
    assert_eq!(row_label(&exact), exact);

    let long: String = "y".repeat(81);
    let label = row_label(&long);
    assert_eq!(label.len(), 83);
    assert!(label.starts_with(&"y".repeat(80)));
    assert!(label.ends_with("..."));
}
