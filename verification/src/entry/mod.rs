//! Log entries.

mod log_entry;

pub use log_entry::{EntryPayload, EntryRecord, LogEntry};
