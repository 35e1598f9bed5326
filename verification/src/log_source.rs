//! A log source: one watched file, or one watched directory with a
//! glob pattern.

use vstd::prelude::*;
use vstd::string::StringExecFns;
use crate::file_path::{FilePath, spec_file_name};

verus! {

/// The type of log source.
#[derive(Debug, Clone, Copy, PartialEq, Eq, Structural)]
pub enum LogSourceType {
    File,
    Folder,
}

/// The status of a log source.
#[derive(Debug, Clone, Copy, PartialEq, Eq, Structural)]
pub enum LogSourceStatus {
    Active,
    Paused,
    Error,
    Stopped,
}

/// The mathematical value of a [`LogSource`].
pub struct SourceModel {
    pub id: Seq<char>,
    pub path: Seq<char>,
    pub source_type: LogSourceType,
    pub name: Seq<char>,
    pub pattern: Option<Seq<char>>,
    pub status: LogSourceStatus,
    pub error_message: Option<Seq<char>>,
    pub created_at: u64,
    pub last_activity_at: Option<u64>,
}

/// A log source being watched for new entries.  Creation and activity
/// times are epoch milliseconds supplied by the caller.
#[derive(Debug)]
pub struct LogSource {
    /// Unique identifier.
    pub id: String,
    /// The file or folder path.
    pub path: FilePath,
    /// Whether this is a file or folder.
    pub source_type: LogSourceType,
    /// Display name for this source.
    pub name: String,
    /// File pattern for folder sources (e.g. "*.log").
    pub pattern: Option<String>,
    /// Current status.
    pub status: LogSourceStatus,
    /// Error message if status is `Error`.
    pub error_message: Option<String>,
    /// When this source was created, in epoch milliseconds.
    pub created_at: u64,
    /// Last activity, in epoch milliseconds.
    pub last_activity_at: Option<u64>,
}

impl View for LogSource {
    type V = SourceModel;

    open spec fn view(&self) -> SourceModel {
        SourceModel {
            id: self.id@,
            path: self.path@,
            source_type: self.source_type,
            name: self.name@,
            pattern: self.pattern.deep_view(),
            status: self.status,
            error_message: self.error_message.deep_view(),
            created_at: self.created_at,
            last_activity_at: self.last_activity_at,
        }
    }
}

impl DeepView for LogSource {
    type V = SourceModel;

    open spec fn deep_view(&self) -> SourceModel {
        self.view()
    }
}

impl Clone for LogSource {
    /// A clone has the same mathematical value.
    fn clone(&self) -> (r: Self)
        ensures
            r@ == self@,
    {
        LogSource {
            id: self.id.clone(),
            path: self.path.duplicate(),
            source_type: self.source_type,
            name: self.name.clone(),
            pattern: self.pattern.clone(),
            status: self.status,
            error_message: self.error_message.clone(),
            created_at: self.created_at,
            last_activity_at: self.last_activity_at,
        }
    }
}

/// The display name of a source: the given name, or the path's file
/// name, or "Unknown".
pub open spec fn spec_display_name(path: Seq<char>, name: Option<Seq<char>>) -> Seq<char> {
    match name {
        Some(n) => n,
        None => match spec_file_name(path) {
            Some(f) => f,
            None => "Unknown"@,
        },
    }
}

fn display_name_of(path: &FilePath, name: Option<String>) -> (r: String)
    ensures
        r@ == spec_display_name(path@, name.deep_view()),
{
    match name {
        Some(n) => n,
        None => match path.file_name() {
            Some(f) => f,
            None => String::from_str("Unknown"),
        },
    }
}

impl LogSource {
    /// Creates a new file source, `Active`, created at `now_ms`.
    pub fn new_file(id: String, path: FilePath, name: Option<String>, now_ms: u64) -> (r: Self)
        ensures
            r@ == (SourceModel {
                id: id@,
                path: path@,
                source_type: LogSourceType::File,
                name: spec_display_name(path@, name.deep_view()),
                pattern: None,
                status: LogSourceStatus::Active,
                error_message: None,
                created_at: now_ms,
                last_activity_at: None,
            }),
    {
        let display_name = display_name_of(&path, name);
        LogSource {
            id,
            path,
            source_type: LogSourceType::File,
            name: display_name,
            pattern: None,
            status: LogSourceStatus::Active,
            error_message: None,
            created_at: now_ms,
            last_activity_at: None,
        }
    }

    /// Creates a new folder source, `Active`, created at `now_ms`.
    pub fn new_folder(
        id: String,
        path: FilePath,
        pattern: String,
        name: Option<String>,
        now_ms: u64,
    ) -> (r: Self)
        ensures
            r@ == (SourceModel {
                id: id@,
                path: path@,
                source_type: LogSourceType::Folder,
                name: spec_display_name(path@, name.deep_view()),
                pattern: Some(pattern@),
                status: LogSourceStatus::Active,
                error_message: None,
                created_at: now_ms,
                last_activity_at: None,
            }),
    {
        let display_name = display_name_of(&path, name);
        LogSource {
            id,
            path,
            source_type: LogSourceType::Folder,
            name: display_name,
            pattern: Some(pattern),
            status: LogSourceStatus::Active,
            error_message: None,
            created_at: now_ms,
            last_activity_at: None,
        }
    }

    /// Checks if this source is active.
    pub fn is_active(&self) -> (r: bool)
        ensures
            r == (self.status == LogSourceStatus::Active),
    {
        self.status == LogSourceStatus::Active
    }

    /// Checks if this source has an error.
    pub fn has_error(&self) -> (r: bool)
        ensures
            r == (self.status == LogSourceStatus::Error),
    {
        self.status == LogSourceStatus::Error
    }

    /// Checks if this source watches a folder.
    pub fn is_folder(&self) -> (r: bool)
        ensures
            r == (self.source_type == LogSourceType::Folder),
    {
        self.source_type == LogSourceType::Folder
    }

    /// Updates the status and error message; nothing else changes.
    pub fn set_status(&mut self, status: LogSourceStatus, error: Option<String>)
        ensures
            final(self)@ == (SourceModel { status, error_message: error.deep_view(), ..old(self)@ }),
    {
        self.status = status;
        self.error_message = error;
    }

    /// Records activity at `now_ms`; nothing else changes.
    pub fn record_activity(&mut self, now_ms: u64)
        ensures
            final(self)@ == (SourceModel { last_activity_at: Some(now_ms), ..old(self)@ }),
    {
        self.last_activity_at = Some(now_ms);
    }
}

} // verus!
