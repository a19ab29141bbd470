//! The clipboard watcher's decision core.
//!
//! The I/O shell owns the clipboard handle, the clock and the sleep; each
//! poll it hands the outcome of one read (the text, or the error message) to
//! `handle_poll`, performs the directive that comes back, and sleeps for the
//! returned interval.  Everything the watcher decides — what counts as a
//! change, what is forwarded to the store, and the adaptive cadence — is
//! verified here.

use vstd::prelude::*;

use crate::store::Database;
use crate::store::can_add;
use crate::store::step_add;
use crate::text::blank_text;
use crate::text::has_substring;
use crate::text::is_blank;
use crate::text::str_contains;

verus! {

/// Poll interval right after a detected change.
pub const FAST_POLL_MS: u64 = 100;

/// Poll interval once a change is a couple of seconds old.
pub const SETTLED_POLL_MS: u64 = 250;

/// Poll interval for a change several seconds old.
pub const SLOW_POLL_MS: u64 = 500;

/// Poll interval after more than ten quiet seconds.
pub const IDLE_POLL_MS: u64 = 1000;

/// Flat interval after a soft read failure (empty or non-text clipboard).
pub const SOFT_FAILURE_POLL_MS: u64 = 500;

/// Backoff interval when the clipboard handle could not be re-acquired.
pub const BACKOFF_POLL_MS: u64 = 2000;

/// The adaptive cadence table as a function of the time since the last
/// detected change.
pub open spec fn spec_next_interval(elapsed_ms: u64) -> u64 {
    if elapsed_ms < 2000 {
        FAST_POLL_MS
    } else if elapsed_ms <= 5000 {
        SETTLED_POLL_MS
    } else if elapsed_ms <= 10000 {
        SLOW_POLL_MS
    } else {
        IDLE_POLL_MS
    }
}

/// Poll interval while the clipboard is quiet, from the elapsed time since
/// the last detected change: polling slows down as the clipboard stays
/// idle, reaching one second after ten quiet seconds.
pub fn next_interval(elapsed_ms: u64) -> (r: u64)
    ensures
        r == spec_next_interval(elapsed_ms),
        elapsed_ms > 10000 ==> r == IDLE_POLL_MS,
        elapsed_ms < 2000 ==> r == FAST_POLL_MS,
{
    if elapsed_ms < 2000 {
        FAST_POLL_MS
    } else if elapsed_ms <= 5000 {
        SETTLED_POLL_MS
    } else if elapsed_ms <= 10000 {
        SLOW_POLL_MS
    } else {
        IDLE_POLL_MS
    }
}

/// A read error message that reports a soft condition: the clipboard is
/// momentarily empty or holds a non-text format.  Everything else is a hard
/// failure of the handle.
pub open spec fn soft_failure_message(msg: Seq<char>) -> bool {
    ||| has_substring(msg, "empty"@)
    ||| has_substring(msg, "Empty"@)
    ||| has_substring(msg, "not available"@)
    ||| has_substring(msg, "format"@)
}

/// Classify a clipboard read error as soft (slow down) or hard (re-acquire
/// the handle).
pub fn is_soft_failure_message(msg: &str) -> (b: bool)
    ensures
        b == soft_failure_message(msg@),
{
    str_contains(msg, "empty") || str_contains(msg, "Empty") || str_contains(msg, "not available")
        || str_contains(msg, "format")
}

/// What one poll of the clipboard produced: the text that was read, or the
/// message of the error the read failed with.
pub enum PollReading {
    Text(String),
    ReadError(String),
}

/// What the I/O loop must do after a poll was handled: sleep for
/// `interval_ms` (resetting its change timer when `change_detected`), or
/// re-acquire the clipboard handle after a hard failure.
#[derive(Debug, PartialEq, Eq, Structural)]
pub enum PollDirective {
    Sleep { interval_ms: u64, change_detected: bool },
    Reacquire,
}

/// The watcher's own state: the last non-blank text it observed, which is
/// its notion of "current" and is independent of the store's default entry.
pub struct ClipboardWatcher {
    last_content: Option<String>,
}

impl ClipboardWatcher {
    /// The last observed text, if any.
    pub closed spec fn last_seen(&self) -> Option<Seq<char>> {
        match self.last_content {
            Some(s) => Some(s@),
            None => None,
        }
    }

    /// A watcher that has not observed anything yet.
    pub fn new() -> (w: ClipboardWatcher)
        ensures
            w.last_seen() is None,
    {
        ClipboardWatcher { last_content: None }
    }

    /// Forward one successfully read text to the store.  Blank text and text
    /// equal to the last observation are ignored; anything else is recorded
    /// in the store (a store failure is dropped, not propagated) and becomes
    /// the new last observation.
    pub fn process_clipboard_content(&mut self, db: &mut Database, content: String) -> (changed:
        bool)
        requires
            old(db).inv(),
        ensures
            final(db).inv(),
            changed == (!blank_text(content@) && old(self).last_seen() != Some(content@)),
            changed ==> final(self).last_seen() == Some(content@),
            changed && can_add(old(db)@, content@) ==> final(db)@ == step_add(old(db)@, content@),
            changed && !can_add(old(db)@, content@) ==> final(db)@ == old(db)@,
            !changed ==> final(self).last_seen() == old(self).last_seen() && final(db)@ == old(
                db,
            )@,
    {
        if is_blank(content.as_str()) {
            return false;
        }
        let differs = match &self.last_content {
            None => true,
            Some(prev) => !(*prev == content),
        };
        if !differs {
            return false;
        }
        let _ = db.add_entry(content.clone());
        self.last_content = Some(content);
        true
    }

    /// Handle the outcome of one poll, `elapsed_ms` after the last detected
    /// change.  A new non-blank text is forwarded to the store and resets
    /// the cadence to the fast tier; unchanged text slows the cadence by the
    /// elapsed time; blank or soft-failing reads keep the flat soft tier;
    /// any other failure asks the shell to re-acquire the handle.
    pub fn handle_poll(&mut self, db: &mut Database, reading: PollReading, elapsed_ms: u64) -> (d:
        PollDirective)
        requires
            old(db).inv(),
        ensures
            final(db).inv(),
            match reading {
                PollReading::Text(content) => {
                    if blank_text(content@) {
                        &&& d == (PollDirective::Sleep {
                            interval_ms: SOFT_FAILURE_POLL_MS,
                            change_detected: false,
                        })
                        &&& final(self).last_seen() == old(self).last_seen()
                        &&& final(db)@ == old(db)@
                    } else if old(self).last_seen() != Some(content@) {
                        &&& d == (PollDirective::Sleep {
                            interval_ms: FAST_POLL_MS,
                            change_detected: true,
                        })
                        &&& final(self).last_seen() == Some(content@)
                        &&& can_add(old(db)@, content@) ==> final(db)@ == step_add(
                            old(db)@,
                            content@,
                        )
                        &&& !can_add(old(db)@, content@) ==> final(db)@ == old(db)@
                    } else {
                        &&& d == (PollDirective::Sleep {
                            interval_ms: spec_next_interval(elapsed_ms),
                            change_detected: false,
                        })
                        &&& final(self).last_seen() == old(self).last_seen()
                        &&& final(db)@ == old(db)@
                    }
                },
                PollReading::ReadError(msg) => {
                    &&& final(self).last_seen() == old(self).last_seen()
                    &&& final(db)@ == old(db)@
                    &&& if soft_failure_message(msg@) {
                        d == (PollDirective::Sleep {
                            interval_ms: SOFT_FAILURE_POLL_MS,
                            change_detected: false,
                        })
                    } else {
                        d == PollDirective::Reacquire
                    }
                },
            },
    {
        match reading {
            PollReading::Text(content) => {
                if is_blank(content.as_str()) {
                    PollDirective::Sleep {
                        interval_ms: SOFT_FAILURE_POLL_MS,
                        change_detected: false,
                    }
                } else {
                    let changed = self.process_clipboard_content(db, content);
                    if changed {
                        PollDirective::Sleep { interval_ms: FAST_POLL_MS, change_detected: true }
                    } else {
                        PollDirective::Sleep {
                            interval_ms: next_interval(elapsed_ms),
                            change_detected: false,
                        }
                    }
                }
            },
            PollReading::ReadError(msg) => {
                if is_soft_failure_message(msg.as_str()) {
                    PollDirective::Sleep {
                        interval_ms: SOFT_FAILURE_POLL_MS,
                        change_detected: false,
                    }
                } else {
                    PollDirective::Reacquire
                }
            },
        }
    }

    /// Interval to continue with after a hard failure forced the clipboard
    /// handle to be re-acquired: the fast tier when a fresh handle was
    /// obtained, the long backoff when even that failed.
    pub fn reacquire_interval(succeeded: bool) -> (r: u64)
        ensures
            succeeded ==> r == FAST_POLL_MS,
            !succeeded ==> r == BACKOFF_POLL_MS,
    {
        if succeeded {
            FAST_POLL_MS
        } else {
            BACKOFF_POLL_MS
        }
    }
}

} // verus!
