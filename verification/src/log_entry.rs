//! A parsed log record.

use vstd::prelude::*;
use vstd::string::StringExecFns;
use crate::log_level::LogLevel;
use crate::timestamp::Timestamp;
use crate::text::{spec_dec, u64_to_dec};

verus! {

/// The mathematical value of a [`LogEntry`]: every text field as a
/// character sequence.
pub struct EntryModel {
    pub id: Seq<char>,
    pub timestamp: Option<Timestamp>,
    pub level: LogLevel,
    pub message: Seq<char>,
    pub raw: Seq<char>,
    pub line_number: u64,
    pub context: Option<Seq<char>>,
    pub stack_trace: Option<Seq<Seq<char>>>,
    pub channel: Option<Seq<char>>,
}

/// A parsed log entry from a log file.  Entries are immutable once
/// created; the `with_` methods derive new values.
#[derive(Debug, PartialEq)]
pub struct LogEntry {
    /// Unique identifier for this entry.
    pub id: String,
    /// The parsed timestamp, if available.
    pub timestamp: Option<Timestamp>,
    /// The log severity level.
    pub level: LogLevel,
    /// The parsed message content.
    pub message: String,
    /// The raw, unparsed log line.
    pub raw: String,
    /// The 1-based line number in the source file at time of parse.
    pub line_number: u64,
    /// Additional context parsed from the entry, as the JSON text found
    /// at the end of the message.
    pub context: Option<String>,
    /// Stack trace lines, if present.
    pub stack_trace: Option<Vec<String>>,
    /// The log channel/environment (e.g. "local", "production").
    pub channel: Option<String>,
}

impl View for LogEntry {
    type V = EntryModel;

    open spec fn view(&self) -> EntryModel {
        EntryModel {
            id: self.id@,
            timestamp: self.timestamp,
            level: self.level,
            message: self.message@,
            raw: self.raw@,
            line_number: self.line_number,
            context: self.context.deep_view(),
            stack_trace: self.stack_trace.deep_view(),
            channel: self.channel.deep_view(),
        }
    }
}

impl DeepView for LogEntry {
    type V = EntryModel;

    open spec fn deep_view(&self) -> EntryModel {
        self.view()
    }
}

impl Clone for LogEntry {
    /// A clone has the same mathematical value.
    fn clone(&self) -> (r: Self)
        ensures
            r@ == self@,
    {
        let stack_trace: Option<Vec<String>> = match &self.stack_trace {
            Some(v) => {
                let mut w: Vec<String> = Vec::new();
                let mut i: usize = 0;
                while i < v.len()
                    invariant
                        0 <= i <= v.len(),
                        w.len() == i,
                        forall|j: int| 0 <= j < i ==> w[j]@ == v[j]@,
                    decreases v.len() - i,
                {
                    w.push(v[i].clone());
                    i = i + 1;
                }
                proof {
                    assert(w.deep_view() =~= v.deep_view());
                }
                Some(w)
            },
            None => None,
        };
        let r = LogEntry {
            id: self.id.clone(),
            timestamp: self.timestamp,
            level: self.level,
            message: self.message.clone(),
            raw: self.raw.clone(),
            line_number: self.line_number,
            context: self.context.clone(),
            stack_trace,
            channel: self.channel.clone(),
        };
        proof {
            match self.context {
                Some(_) => {},
                None => {},
            }
        }
        r
    }
}

impl LogEntry {
    /// Creates a new entry with all fields.
    pub fn new(
        id: String,
        timestamp: Option<Timestamp>,
        level: LogLevel,
        message: String,
        raw: String,
        line_number: u64,
        context: Option<String>,
        stack_trace: Option<Vec<String>>,
        channel: Option<String>,
    ) -> (r: Self)
        ensures
            r@ == (EntryModel {
                id: id@,
                timestamp,
                level,
                message: message@,
                raw: raw@,
                line_number,
                context: context.deep_view(),
                stack_trace: stack_trace.deep_view(),
                channel: channel.deep_view(),
            }),
    {
        LogEntry { id, timestamp, level, message, raw, line_number, context, stack_trace, channel }
    }

    /// Creates a basic entry without optional payloads.
    pub fn basic(
        id: String,
        timestamp: Option<Timestamp>,
        level: LogLevel,
        message: String,
        raw: String,
        line_number: u64,
    ) -> (r: Self)
        ensures
            r@ == (EntryModel {
                id: id@,
                timestamp,
                level,
                message: message@,
                raw: raw@,
                line_number,
                context: None,
                stack_trace: None,
                channel: None,
            }),
    {
        LogEntry {
            id,
            timestamp,
            level,
            message,
            raw,
            line_number,
            context: None,
            stack_trace: None,
            channel: None,
        }
    }

    /// The id given to an unparsed raw entry: the line number and the
    /// creation time in milliseconds, joined by a dash.
    pub open spec fn raw_id(line_number: u64, now_ms: u64) -> Seq<char> {
        spec_dec(line_number as int) + "-"@ + spec_dec(now_ms as int)
    }

    /// Creates an entry from a raw line with minimal parsing: the whole
    /// line is the message, severity defaults to `Info`.  `now_ms` is the
    /// current time in milliseconds, supplied by the caller and used only
    /// for the generated id.
    pub fn from_raw(raw: String, line_number: u64, now_ms: u64) -> (r: Self)
        ensures
            r@ == (EntryModel {
                id: Self::raw_id(line_number, now_ms),
                timestamp: None,
                level: LogLevel::Info,
                message: raw@,
                raw: raw@,
                line_number,
                context: None,
                stack_trace: None,
                channel: None,
            }),
    {
        let mut id = u64_to_dec(line_number);
        id.append("-");
        let tail = u64_to_dec(now_ms);
        id.append(tail.as_str());
        let message = raw.clone();
        LogEntry {
            id,
            timestamp: None,
            level: LogLevel::Info,
            message,
            raw,
            line_number,
            context: None,
            stack_trace: None,
            channel: None,
        }
    }

    /// True when the entry carries a non-empty stack trace.
    pub open spec fn spec_has_stack_trace(self) -> bool {
        match self.stack_trace {
            Some(v) => v.len() > 0,
            None => false,
        }
    }

    /// Checks if this entry has a (non-empty) stack trace.
    pub fn has_stack_trace(&self) -> (r: bool)
        ensures
            r == self.spec_has_stack_trace(),
    {
        match &self.stack_trace {
            Some(v) => v.len() > 0,
            None => false,
        }
    }

    /// Returns this entry with `context` set.
    pub fn with_context(self, context: String) -> (r: Self)
        ensures
            r@ == (EntryModel { context: Some(context@), ..self@ }),
    {
        LogEntry { context: Some(context), ..self }
    }

    /// Returns this entry with `stack_trace` set.
    pub fn with_stack_trace(self, stack_trace: Vec<String>) -> (r: Self)
        ensures
            r@ == (EntryModel { stack_trace: Some(stack_trace.deep_view()), ..self@ }),
    {
        LogEntry { stack_trace: Some(stack_trace), ..self }
    }

    /// Returns this entry with `channel` set.
    pub fn with_channel(self, channel: String) -> (r: Self)
        ensures
            r@ == (EntryModel { channel: Some(channel@), ..self@ }),
    {
        LogEntry { channel: Some(channel), ..self }
    }
}

} // verus!
