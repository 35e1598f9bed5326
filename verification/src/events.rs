//! Event payloads handed to the presentation sink.

use vstd::prelude::*;
use crate::log_entry::LogEntry;
use crate::log_source::{LogSource, LogSourceStatus};

verus! {

/// New log entries for a source.
#[derive(Debug)]
pub struct LogEntriesEvent {
    /// The source ID that produced these entries.
    pub source_id: String,
    /// The new log entries.
    pub entries: Vec<LogEntry>,
}

/// A source's status changed.
#[derive(Debug)]
pub struct SourceStatusEvent {
    /// The source ID.
    pub source_id: String,
    /// The new status.
    pub status: LogSourceStatus,
    /// Error message if status is `Error`.
    pub error_message: Option<String>,
}

/// A source was added.
#[derive(Debug)]
pub struct SourceAddedEvent {
    /// The added source.
    pub source: LogSource,
}

/// A source was removed.
#[derive(Debug)]
pub struct SourceRemovedEvent {
    /// The removed source ID.
    pub source_id: String,
}

/// A watched file was truncated; its entries were cleared.
#[derive(Debug)]
pub struct FileTruncatedEvent {
    /// The source ID.
    pub source_id: String,
}

/// The reply of an add-source command.
#[derive(Debug)]
pub struct AddSourceResponse {
    pub success: bool,
    pub source: Option<LogSource>,
    pub error: Option<String>,
}

/// The reply of a get-entries command.
#[derive(Debug)]
pub struct GetEntriesResponse {
    pub entries: Vec<LogEntry>,
    pub total_count: usize,
}

/// What the engine asks the sink to deliver after processing one file
/// watch event.
#[derive(Debug)]
pub enum EngineEvent {
    Entries(LogEntriesEvent),
    Status(SourceStatusEvent),
    Truncated(FileTruncatedEvent),
}

} // verus!
