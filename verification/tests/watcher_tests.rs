use clippoo::store::Database;
use clippoo::watcher::BACKOFF_POLL_MS;
use clippoo::watcher::ClipboardWatcher;
use clippoo::watcher::FAST_POLL_MS;
use clippoo::watcher::IDLE_POLL_MS;
use clippoo::watcher::PollDirective;
use clippoo::watcher::PollReading;
use clippoo::watcher::SETTLED_POLL_MS;
use clippoo::watcher::SLOW_POLL_MS;
use clippoo::watcher::SOFT_FAILURE_POLL_MS;
use clippoo::watcher::next_interval;

fn sleep(interval_ms: u64, change_detected: bool) -> PollDirective {
    PollDirective::Sleep { interval_ms, change_detected }
}

#[test]
fn cadence_table_matches_the_elapsed_time() {
    assert_eq!(next_interval(0), FAST_POLL_MS);
    assert_eq!(next_interval(1999), FAST_POLL_MS);
    assert_eq!(next_interval(2000), SETTLED_POLL_MS);
    assert_eq!(next_interval(5000), SETTLED_POLL_MS);
    assert_eq!(next_interval(5001), SLOW_POLL_MS);
    assert_eq!(next_interval(10000), SLOW_POLL_MS);
    assert_eq!(next_interval(10001), IDLE_POLL_MS);
    assert_eq!(next_interval(u64::MAX), IDLE_POLL_MS);
}

#[test]
fn idle_for_over_ten_seconds_polls_once_a_second() {
    // Cadence law: over ten quiet seconds means the 1000 ms tier, and a
    // detected change resets to the 100 ms tier.
    let mut db = Database::new();
    let mut w = ClipboardWatcher::new();

    let d = w.handle_poll(&mut db, PollReading::Text("hello".to_string()), 123456);
    assert_eq!(d, sleep(FAST_POLL_MS, true));

    let d = w.handle_poll(&mut db, PollReading::Text("hello".to_string()), 10001);
    assert_eq!(d, sleep(IDLE_POLL_MS, false));
}

#[test]
fn new_text_is_forwarded_to_the_store() {
    let mut db = Database::new();
    let mut w = ClipboardWatcher::new();

    let d = w.handle_poll(&mut db, PollReading::Text("first".to_string()), 0);
    assert_eq!(d, sleep(FAST_POLL_MS, true));
    assert_eq!(db.get_default_entry().unwrap().content, "first");

    let d = w.handle_poll(&mut db, PollReading::Text("second".to_string()), 50);
    assert_eq!(d, sleep(FAST_POLL_MS, true));
    assert_eq!(db.get_default_entry().unwrap().content, "second");
    assert_eq!(db.get_recent_entries(10).len(), 2);
}

#[test]
fn unchanged_text_is_not_forwarded_and_slows_down() {
    let mut db = Database::new();
    let mut w = ClipboardWatcher::new();

    w.handle_poll(&mut db, PollReading::Text("same".to_string()), 0);
    let d = w.handle_poll(&mut db, PollReading::Text("same".to_string()), 3000);
    assert_eq!(d, sleep(SETTLED_POLL_MS, false));
    let d = w.handle_poll(&mut db, PollReading::Text("same".to_string()), 7000);
    assert_eq!(d, sleep(SLOW_POLL_MS, false));
    assert_eq!(db.get_recent_entries(10).len(), 1);
}

#[test]
fn blank_text_is_ignored_at_the_soft_tier() {
    let mut db = Database::new();
    let mut w = ClipboardWatcher::new();

    let d = w.handle_poll(&mut db, PollReading::Text("  \t\n".to_string()), 0);
    assert_eq!(d, sleep(SOFT_FAILURE_POLL_MS, false));
    assert!(db.get_default_entry().is_none());

    // A blank capture does not become the last observation either.
    let d = w.handle_poll(&mut db, PollReading::Text("real".to_string()), 0);
    assert_eq!(d, sleep(FAST_POLL_MS, true));
}

#[test]
fn soft_read_failures_slow_down_without_reacquiring() {
    let mut db = Database::new();
    let mut w = ClipboardWatcher::new();

    for msg in
        ["clipboard is empty", "Empty clipboard", "contents not available", "unsupported format"] {
        let d = w.handle_poll(&mut db, PollReading::ReadError(msg.to_string()), 0);
        assert_eq!(d, sleep(SOFT_FAILURE_POLL_MS, false));
    }
    assert!(db.get_default_entry().is_none());
}

#[test]
fn hard_read_failures_ask_for_a_fresh_handle() {
    let mut db = Database::new();
    let mut w = ClipboardWatcher::new();

    let d = w.handle_poll(&mut db, PollReading::ReadError("connection lost".to_string()), 0);
    assert_eq!(d, PollDirective::Reacquire);

    assert_eq!(ClipboardWatcher::reacquire_interval(true), FAST_POLL_MS);
    assert_eq!(ClipboardWatcher::reacquire_interval(false), BACKOFF_POLL_MS);
}

#[test]
fn initial_content_is_processed_once() {
    let mut db = Database::new();
    let mut w = ClipboardWatcher::new();

    assert!(w.process_clipboard_content(&mut db, "boot".to_string()));
    assert!(!w.process_clipboard_content(&mut db, "boot".to_string()));
    assert!(!w.process_clipboard_content(&mut db, "   ".to_string()));
    assert_eq!(db.get_recent_entries(10).len(), 1);
}
