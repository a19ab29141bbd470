//! Clipboard-history core: a bounded, deduplicated, recency-ordered store of
//! text entries with a single designated default entry, and the adaptive
//! polling state machine of the clipboard watcher that feeds it.
//!
//! All storage, clipboard and desktop I/O lives outside this crate; the
//! functions here work on plain values and carry machine-checked contracts.

pub mod laws;
pub mod popup;
pub mod shortcuts;
pub mod store;
pub mod text;
pub mod watcher;

pub use shortcuts::ShortcutManager;
pub use store::ClipboardEntry;
pub use store::Database;
pub use store::StorageError;
pub use watcher::ClipboardWatcher;
