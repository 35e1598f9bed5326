//! Tests for the value objects: severity levels, paths, timestamps and
//! log entries.

use logr_lib::file_path::FilePath;
use logr_lib::log_entry::LogEntry;
use logr_lib::log_level::LogLevel;
use logr_lib::log_source::{LogSource, LogSourceType};
use logr_lib::text::u64_to_dec;
use logr_lib::timestamp::Timestamp;

#[test]
fn test_parse_debug() {
    assert_eq!(LogLevel::parse("DEBUG"), LogLevel::Debug);
    assert_eq!(LogLevel::parse("debug"), LogLevel::Debug);
}

#[test]
fn test_parse_info() {
    assert_eq!(LogLevel::parse("INFO"), LogLevel::Info);
    assert_eq!(LogLevel::parse("information"), LogLevel::Info);
}

#[test]
fn test_parse_warning() {
    assert_eq!(LogLevel::parse("WARNING"), LogLevel::Warning);
    assert_eq!(LogLevel::parse("warn"), LogLevel::Warning);
}

#[test]
fn test_parse_error() {
    assert_eq!(LogLevel::parse("ERROR"), LogLevel::Error);
    assert_eq!(LogLevel::parse("err"), LogLevel::Error);
}

#[test]
fn test_parse_critical() {
    assert_eq!(LogLevel::parse("CRITICAL"), LogLevel::Critical);
    assert_eq!(LogLevel::parse("fatal"), LogLevel::Critical);
}

#[test]
fn test_parse_emergency() {
    assert_eq!(LogLevel::parse("EMERGENCY"), LogLevel::Emergency);
    assert_eq!(LogLevel::parse("emerg"), LogLevel::Emergency);
}

#[test]
fn test_parse_unknown_defaults_to_info() {
    assert_eq!(LogLevel::parse("UNKNOWN"), LogLevel::Info);
    assert_eq!(LogLevel::parse("random"), LogLevel::Info);
}

#[test]
fn test_severity() {
    assert_eq!(LogLevel::Debug.severity(), 0);
    assert_eq!(LogLevel::Info.severity(), 1);
    assert_eq!(LogLevel::Notice.severity(), 2);
    assert_eq!(LogLevel::Warning.severity(), 3);
    assert_eq!(LogLevel::Error.severity(), 4);
    assert_eq!(LogLevel::Critical.severity(), 5);
    assert_eq!(LogLevel::Alert.severity(), 6);
    assert_eq!(LogLevel::Emergency.severity(), 7);
}

#[test]
fn test_is_at_least() {
    assert!(LogLevel::Error.is_at_least(LogLevel::Warning));
    assert!(LogLevel::Error.is_at_least(LogLevel::Error));
    assert!(!LogLevel::Info.is_at_least(LogLevel::Error));
}

#[test]
fn test_display() {
    assert_eq!(LogLevel::Error.display_name(), "ERROR");
    assert_eq!(LogLevel::Warning.display_name(), "WARNING");
}

#[test]
fn test_css_class() {
    assert_eq!(LogLevel::Debug.css_class(), "log-level-debug");
    assert_eq!(LogLevel::Emergency.css_class(), "log-level-emergency");
}

#[test]
fn test_default_level_is_info() {
    assert_eq!(LogLevel::default(), LogLevel::Info);
}

#[test]
fn test_new_valid_path() {
    let path = FilePath::new("/var/log/app.log").unwrap();
    assert_eq!(path.as_str(), Some("/var/log/app.log"));
}

#[test]
fn test_new_empty_path_fails() {
    assert!(FilePath::new("").is_err());
}

#[test]
fn test_file_name() {
    let path = FilePath::new("/var/log/app.log").unwrap();
    assert_eq!(path.file_name(), Some("app.log".to_string()));
}

#[test]
fn test_extension() {
    let path = FilePath::new("/var/log/app.log").unwrap();
    assert_eq!(path.extension(), Some("log".to_string()));
}

#[test]
fn test_parent_and_stem() {
    let path = FilePath::new("/var/log/app.log").unwrap();
    assert_eq!(path.parent(), Some("/var/log".to_string()));
    assert_eq!(path.file_stem(), Some("app".to_string()));
}

#[test]
fn test_is_log_file() {
    assert!(FilePath::new("/var/log/app.log").unwrap().is_log_file());
    assert!(FilePath::new("/var/log/app.txt").unwrap().is_log_file());
    assert!(!FilePath::new("/var/log/config.json").unwrap().is_log_file());
}

#[test]
fn test_is_laravel_daily_log() {
    assert!(FilePath::new("/var/log/laravel-2024-01-15.log")
        .unwrap()
        .is_laravel_daily_log());
    assert!(!FilePath::new("/var/log/app.log")
        .unwrap()
        .is_laravel_daily_log());
}

#[test]
fn test_timestamp_validity() {
    assert!(Timestamp::new(2024, 1, 15, 10, 30, 0).is_some());
    assert!(Timestamp::new(2024, 2, 29, 0, 0, 0).is_some());
    assert!(Timestamp::new(2023, 2, 29, 0, 0, 0).is_none());
    assert!(Timestamp::new(2024, 13, 1, 0, 0, 0).is_none());
    assert!(Timestamp::new(2024, 1, 1, 24, 0, 0).is_none());
}

#[test]
fn test_from_raw() {
    let entry = LogEntry::from_raw("Test log line".to_string(), 1, 0);
    assert_eq!(entry.message, "Test log line");
    assert_eq!(entry.line_number, 1);
    assert_eq!(entry.level, LogLevel::Info);
}

#[test]
fn test_from_raw_id_shape() {
    let entry = LogEntry::from_raw("x".to_string(), 7, 1234);
    assert_eq!(entry.id, "7-1234");
}

#[test]
fn test_has_stack_trace() {
    let entry = LogEntry::from_raw("Error".to_string(), 1, 0);
    assert!(!entry.has_stack_trace());

    let entry_with_trace = entry.with_stack_trace(vec!["at file.rs:10".to_string()]);
    assert!(entry_with_trace.has_stack_trace());
}

#[test]
fn test_new_file() {
    let path = FilePath::new("/var/log/app.log").unwrap();
    let source = LogSource::new_file("1".to_string(), path, None, 0);

    assert_eq!(source.source_type, LogSourceType::File);
    assert_eq!(source.name, "app.log");
    assert!(source.is_active());
}

#[test]
fn test_new_folder() {
    let path = FilePath::new("/var/log/laravel").unwrap();
    let source = LogSource::new_folder(
        "1".to_string(),
        path,
        "laravel-*.log".to_string(),
        Some("Laravel Logs".to_string()),
        0,
    );

    assert_eq!(source.source_type, LogSourceType::Folder);
    assert_eq!(source.name, "Laravel Logs");
    assert_eq!(source.pattern, Some("laravel-*.log".to_string()));
}

#[test]
fn test_decimal_rendering() {
    assert_eq!(u64_to_dec(0), "0");
    assert_eq!(u64_to_dec(9), "9");
    assert_eq!(u64_to_dec(12345), "12345");
    assert_eq!(u64_to_dec(u64::MAX), "18446744073709551615");
}
