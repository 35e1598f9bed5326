//! Events and errors at the boundary between the engine and the
//! operating-system watcher that feeds it.

use vstd::prelude::*;
use vstd::string::StringExecFns;

verus! {

/// Events observed on watched files.  Paths are absolute path strings;
/// `line_number` of `ContentAppended` is the line count reached after
/// the appended content was read.
#[derive(Debug)]
pub enum FileWatchEvent {
    /// New content was appended to the file.
    ContentAppended { path: String, content: String, line_number: u64 },
    /// The file was created.
    FileCreated { path: String },
    /// The file was deleted.
    FileDeleted { path: String },
    /// The file was renamed.
    FileRenamed { from: String, to: String },
    /// The file was truncated (size decreased).
    FileTruncated { path: String },
    /// An error occurred while watching.
    Error { path: String, message: String },
}

/// Errors of watch and read operations.  Each variant carries the path
/// (or an opaque message) it concerns.
#[derive(Debug)]
pub enum WatchError {
    FileNotFound(String),
    PermissionDenied(String),
    NotAFile(String),
    NotADirectory(String),
    AlreadyWatching(String),
    NotWatching(String),
    IoError(String),
    WatcherError(String),
}

impl Clone for WatchError {
    /// A clone has the same value.
    fn clone(&self) -> (r: Self)
        ensures
            r == *self,
    {
        match self {
            WatchError::FileNotFound(p) => WatchError::FileNotFound(p.clone()),
            WatchError::PermissionDenied(p) => WatchError::PermissionDenied(p.clone()),
            WatchError::NotAFile(p) => WatchError::NotAFile(p.clone()),
            WatchError::NotADirectory(p) => WatchError::NotADirectory(p.clone()),
            WatchError::AlreadyWatching(p) => WatchError::AlreadyWatching(p.clone()),
            WatchError::NotWatching(p) => WatchError::NotWatching(p.clone()),
            WatchError::IoError(p) => WatchError::IoError(p.clone()),
            WatchError::WatcherError(p) => WatchError::WatcherError(p.clone()),
        }
    }
}

impl WatchError {
    /// The rendered message of each variant.
    pub open spec fn message_model(self) -> Seq<char> {
        match self {
            WatchError::FileNotFound(p) => "File not found: "@ + p@,
            WatchError::PermissionDenied(p) => "Permission denied: "@ + p@,
            WatchError::NotAFile(p) => "Not a file: "@ + p@,
            WatchError::NotADirectory(p) => "Not a directory: "@ + p@,
            WatchError::AlreadyWatching(p) => "Already watching: "@ + p@,
            WatchError::NotWatching(p) => "Not watching: "@ + p@,
            WatchError::IoError(p) => "IO error: "@ + p@,
            WatchError::WatcherError(p) => "Watch error: "@ + p@,
        }
    }

    /// Renders the error as text.
    pub fn message(&self) -> (r: String)
        ensures
            r@ == self.message_model(),
    {
        let (prefix, tail): (&'static str, &String) = match self {
            WatchError::FileNotFound(p) => ("File not found: ", p),
            WatchError::PermissionDenied(p) => ("Permission denied: ", p),
            WatchError::NotAFile(p) => ("Not a file: ", p),
            WatchError::NotADirectory(p) => ("Not a directory: ", p),
            WatchError::AlreadyWatching(p) => ("Already watching: ", p),
            WatchError::NotWatching(p) => ("Not watching: ", p),
            WatchError::IoError(p) => ("IO error: ", p),
            WatchError::WatcherError(p) => ("Watch error: ", p),
        };
        let mut r = String::from_str(prefix);
        r.append(tail.as_str());
        r
    }
}

} // verus!
