//! The severity level of a log record.

use vstd::prelude::*;
use crate::text::{ascii_lower, spec_trim, lower_trim_eq};

verus! {

/// The severity level of a log entry, ordered from least to most severe.
#[derive(Debug, Clone, Copy, PartialEq, Eq, Hash, Structural)]
pub enum LogLevel {
    Debug,
    Info,
    Notice,
    Warning,
    Error,
    Critical,
    Alert,
    Emergency,
}

impl Default for LogLevel {
    /// The default severity is `Info`.
    fn default() -> (r: Self)
        ensures
            r == LogLevel::Info,
    {
        LogLevel::Info
    }
}

impl LogLevel {
    /// The numeric severity of each level, `Debug` being 0 and
    /// `Emergency` being 7.
    pub open spec fn spec_severity(self) -> u8 {
        match self {
            LogLevel::Debug => 0,
            LogLevel::Info => 1,
            LogLevel::Notice => 2,
            LogLevel::Warning => 3,
            LogLevel::Error => 4,
            LogLevel::Critical => 5,
            LogLevel::Alert => 6,
            LogLevel::Emergency => 7,
        }
    }

    /// The level denoted by a token: the token is trimmed and compared
    /// ASCII-case-insensitively against the known names; anything
    /// unrecognised denotes `Info`.
    pub open spec fn spec_parse(s: Seq<char>) -> LogLevel {
        let t = ascii_lower(spec_trim(s));
        if t == "debug"@ {
            LogLevel::Debug
        } else if t == "info"@ || t == "information"@ {
            LogLevel::Info
        } else if t == "notice"@ {
            LogLevel::Notice
        } else if t == "warn"@ || t == "warning"@ {
            LogLevel::Warning
        } else if t == "error"@ || t == "err"@ {
            LogLevel::Error
        } else if t == "critical"@ || t == "crit"@ || t == "fatal"@ {
            LogLevel::Critical
        } else if t == "alert"@ {
            LogLevel::Alert
        } else if t == "emergency"@ || t == "emerg"@ {
            LogLevel::Emergency
        } else {
            LogLevel::Info
        }
    }

    /// Parses a log level from a string, case-insensitively; unknown
    /// tokens default to `Info`.
    pub fn parse(s: &str) -> (r: Self)
        ensures
            r == Self::spec_parse(s@),
    {
        if lower_trim_eq(s, "debug") {
            LogLevel::Debug
        } else if lower_trim_eq(s, "info") || lower_trim_eq(s, "information") {
            LogLevel::Info
        } else if lower_trim_eq(s, "notice") {
            LogLevel::Notice
        } else if lower_trim_eq(s, "warn") || lower_trim_eq(s, "warning") {
            LogLevel::Warning
        } else if lower_trim_eq(s, "error") || lower_trim_eq(s, "err") {
            LogLevel::Error
        } else if lower_trim_eq(s, "critical") || lower_trim_eq(s, "crit") || lower_trim_eq(
            s,
            "fatal",
        ) {
            LogLevel::Critical
        } else if lower_trim_eq(s, "alert") {
            LogLevel::Alert
        } else if lower_trim_eq(s, "emergency") || lower_trim_eq(s, "emerg") {
            LogLevel::Emergency
        } else {
            LogLevel::Info
        }
    }

    /// Returns the severity number of this level.
    pub fn severity(&self) -> (r: u8)
        ensures
            r == self.spec_severity(),
    {
        match self {
            LogLevel::Debug => 0,
            LogLevel::Info => 1,
            LogLevel::Notice => 2,
            LogLevel::Warning => 3,
            LogLevel::Error => 4,
            LogLevel::Critical => 5,
            LogLevel::Alert => 6,
            LogLevel::Emergency => 7,
        }
    }

    /// Checks if this level is at least as severe as `other`.
    pub fn is_at_least(&self, other: LogLevel) -> (r: bool)
        ensures
            r == (self.spec_severity() >= other.spec_severity()),
    {
        self.severity() >= other.severity()
    }

    /// The CSS class name for this level.
    pub open spec fn spec_css_class(self) -> Seq<char> {
        match self {
            LogLevel::Debug => "log-level-debug"@,
            LogLevel::Info => "log-level-info"@,
            LogLevel::Notice => "log-level-notice"@,
            LogLevel::Warning => "log-level-warning"@,
            LogLevel::Error => "log-level-error"@,
            LogLevel::Critical => "log-level-critical"@,
            LogLevel::Alert => "log-level-alert"@,
            LogLevel::Emergency => "log-level-emergency"@,
        }
    }

    /// Returns the CSS class for this log level.
    pub fn css_class(&self) -> (r: &'static str)
        ensures
            r@ == self.spec_css_class(),
    {
        match self {
            LogLevel::Debug => "log-level-debug",
            LogLevel::Info => "log-level-info",
            LogLevel::Notice => "log-level-notice",
            LogLevel::Warning => "log-level-warning",
            LogLevel::Error => "log-level-error",
            LogLevel::Critical => "log-level-critical",
            LogLevel::Alert => "log-level-alert",
            LogLevel::Emergency => "log-level-emergency",
        }
    }

    /// The display name of this level.
    pub open spec fn spec_display_name(self) -> Seq<char> {
        match self {
            LogLevel::Debug => "DEBUG"@,
            LogLevel::Info => "INFO"@,
            LogLevel::Notice => "NOTICE"@,
            LogLevel::Warning => "WARNING"@,
            LogLevel::Error => "ERROR"@,
            LogLevel::Critical => "CRITICAL"@,
            LogLevel::Alert => "ALERT"@,
            LogLevel::Emergency => "EMERGENCY"@,
        }
    }

    /// Returns the upper-case display name of this level.
    pub fn display_name(&self) -> (r: &'static str)
        ensures
            r@ == self.spec_display_name(),
    {
        match self {
            LogLevel::Debug => "DEBUG",
            LogLevel::Info => "INFO",
            LogLevel::Notice => "NOTICE",
            LogLevel::Warning => "WARNING",
            LogLevel::Error => "ERROR",
            LogLevel::Critical => "CRITICAL",
            LogLevel::Alert => "ALERT",
            LogLevel::Emergency => "EMERGENCY",
        }
    }
}

/// A level token that trims and lower-cases to none of the recognised
/// names parses to the default severity `Info`.
pub proof fn lemma_unknown_level_defaults_to_info(s: Seq<char>)
    requires
        ascii_lower(spec_trim(s)) != "debug"@,
        ascii_lower(spec_trim(s)) != "info"@,
        ascii_lower(spec_trim(s)) != "information"@,
        ascii_lower(spec_trim(s)) != "notice"@,
        ascii_lower(spec_trim(s)) != "warn"@,
        ascii_lower(spec_trim(s)) != "warning"@,
        ascii_lower(spec_trim(s)) != "error"@,
        ascii_lower(spec_trim(s)) != "err"@,
        ascii_lower(spec_trim(s)) != "critical"@,
        ascii_lower(spec_trim(s)) != "crit"@,
        ascii_lower(spec_trim(s)) != "fatal"@,
        ascii_lower(spec_trim(s)) != "alert"@,
        ascii_lower(spec_trim(s)) != "emergency"@,
        ascii_lower(spec_trim(s)) != "emerg"@,
    ensures
        LogLevel::spec_parse(s) == LogLevel::Info,
{
}

} // verus!
