//! Core engine of a live log-tailing library.
//!
//! The crate watches files and directories for appended, truncated, created
//! and deleted content, turns raw size observations into semantic byte-range
//! deltas per watched path, and incrementally parses new lines into
//! structured log records, preserving multi-line structures such as stack
//! traces.  All state transitions, the line-to-record parser and the
//! bookkeeping around them are verified; the operating-system side (actual
//! file reads and change notifications) is supplied by the caller as plain
//! values.

pub mod text;

pub mod log_level;

pub mod timestamp;

pub mod log_entry;

pub mod file_path;

pub mod log_source;

pub mod assoc;

pub mod laravel;

pub mod globs;

pub mod ports;

pub mod watcher;

pub mod events;

pub mod state;

pub mod windows;
