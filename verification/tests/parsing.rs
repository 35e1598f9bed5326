//! Tests for the Laravel line parser, its multiline rule and the daily
//! log detector.

use logr_lib::laravel::{LaravelDailyLogDetector, LaravelLogParser};
use logr_lib::log_level::LogLevel;

#[test]
fn test_parse_basic_log_line() {
    let parser = LaravelLogParser::new();
    let line = "[2024-01-15 10:30:00] local.ERROR: Test error message";

    let entry = parser.parse(line, 1).expect("Should parse log line");

    assert_eq!(entry.level, LogLevel::Error);
    assert_eq!(entry.message, "Test error message");
    assert!(entry.timestamp.is_some());
}

#[test]
fn test_round_trip_fields() {
    let parser = LaravelLogParser::new();
    let entry = parser
        .parse("[2024-01-15 10:30:00] local.ERROR: Boom", 1)
        .expect("Should parse log line");
    assert_eq!(entry.level, LogLevel::Error);
    assert_eq!(entry.channel.as_deref(), Some("local"));
    assert_eq!(entry.message, "Boom");
    assert!(entry.context.is_none());
    let ts = entry.timestamp.unwrap();
    assert_eq!(ts.year, 2024);
    assert_eq!(ts.month, 1);
    assert_eq!(ts.day, 15);
    assert_eq!(ts.hour, 10);
    assert_eq!(ts.minute, 30);
    assert_eq!(ts.second, 0);
}

#[test]
fn test_parse_log_with_context() {
    let parser = LaravelLogParser::new();
    let line = r#"[2024-01-15 10:30:00] local.INFO: User logged in {"user_id": 123}"#;

    let entry = parser.parse(line, 1).expect("Should parse log line");

    assert_eq!(entry.level, LogLevel::Info);
    assert_eq!(entry.message, "User logged in");
    assert!(entry.context.is_some());
    assert!(!entry.context.unwrap().is_empty());
}

#[test]
fn test_invalid_context_stays_in_message() {
    let parser = LaravelLogParser::new();
    let line = "[2024-01-15 10:30:00] local.INFO: Odd tail {not json}";
    let entry = parser.parse(line, 1).expect("Should parse log line");
    assert_eq!(entry.message, "Odd tail {not json}");
    assert!(entry.context.is_none());
}

#[test]
fn test_invalid_timestamp_still_parses() {
    let parser = LaravelLogParser::new();
    let entry = parser
        .parse("[2024-13-40 10:30:00] local.ERROR: Bad date", 1)
        .expect("Should parse log line");
    assert!(entry.timestamp.is_none());
    assert_eq!(entry.level, LogLevel::Error);
}

#[test]
fn test_parse_different_levels() {
    let parser = LaravelLogParser::new();

    let test_cases = [
        ("[2024-01-15 10:30:00] local.DEBUG: Debug message", LogLevel::Debug),
        ("[2024-01-15 10:30:00] local.INFO: Info message", LogLevel::Info),
        ("[2024-01-15 10:30:00] local.NOTICE: Notice message", LogLevel::Notice),
        ("[2024-01-15 10:30:00] local.WARNING: Warning message", LogLevel::Warning),
        ("[2024-01-15 10:30:00] local.ERROR: Error message", LogLevel::Error),
        ("[2024-01-15 10:30:00] local.CRITICAL: Critical message", LogLevel::Critical),
        ("[2024-01-15 10:30:00] local.ALERT: Alert message", LogLevel::Alert),
        ("[2024-01-15 10:30:00] local.EMERGENCY: Emergency message", LogLevel::Emergency),
    ];

    for (line, expected_level) in test_cases {
        let entry = parser.parse(line, 1).expect("Should parse log line");
        assert_eq!(entry.level, expected_level, "Failed for: {}", line);
    }
}

#[test]
fn test_unknown_level_token_is_info() {
    let parser = LaravelLogParser::new();
    let entry = parser
        .parse("[2024-01-15 10:30:00] local.VERBOSE: Strange level", 1)
        .expect("Should parse log line");
    assert_eq!(entry.level, LogLevel::Info);
}

#[test]
fn test_can_parse() {
    let parser = LaravelLogParser::new();

    assert!(parser.can_parse("[2024-01-15 10:30:00] local.ERROR: Test"));
    assert!(parser.can_parse("[2024-01-15 10:30:00] production.INFO: Test"));
    assert!(!parser.can_parse("Plain text log"));
    assert!(!parser.can_parse("[ERROR] Not Laravel format"));
}

#[test]
fn test_parse_multiline_with_stack_trace() {
    let parser = LaravelLogParser::new();
    let lines: Vec<String> = vec![
        "[2024-01-15 10:30:00] local.ERROR: Exception occurred".to_string(),
        "#0 /app/Controller.php(50): method()".to_string(),
        "#1 /app/Router.php(100): Controller->handle()".to_string(),
        "[2024-01-15 10:30:01] local.INFO: Next entry".to_string(),
    ];

    let (entry, consumed) = parser.parse_multiline(&lines, 1).expect("Should parse");

    assert_eq!(consumed, 3);
    assert!(entry.stack_trace.is_some());
    assert_eq!(entry.stack_trace.as_ref().unwrap().len(), 2);
}

#[test]
fn test_parse_multiline_single_line() {
    let parser = LaravelLogParser::new();
    let lines: Vec<String> = vec![
        "[2024-01-15 10:30:00] local.INFO: Just this".to_string(),
        "[2024-01-15 10:30:01] local.INFO: And that".to_string(),
    ];
    let (entry, consumed) = parser.parse_multiline(&lines, 5).expect("Should parse");
    assert_eq!(consumed, 1);
    assert!(entry.stack_trace.is_none());
    assert_eq!(entry.line_number, 5);
}

#[test]
fn test_is_stack_trace_line() {
    let parser = LaravelLogParser::new();
    assert!(parser.is_stack_trace_line("#0 /app/Controller.php(50): method()"));
    assert!(parser.is_stack_trace_line("    at Object.run (main.js:1)"));
    assert!(parser.is_stack_trace_line("Stack trace:"));
    assert!(parser.is_stack_trace_line("[stacktrace]"));
    assert!(!parser.is_stack_trace_line("ordinary text"));
}

#[test]
fn test_different_environments() {
    let parser = LaravelLogParser::new();

    let environments = ["local", "production", "staging", "testing"];

    for env in environments {
        let line = format!("[2024-01-15 10:30:00] {}.INFO: Test", env);
        let entry = parser.parse(&line, 1).expect("Should parse");
        assert_eq!(entry.channel.as_deref(), Some(env));
    }
}

#[test]
fn test_parser_name() {
    let parser = LaravelLogParser::new();
    assert_eq!(parser.name(), "Laravel");
}

#[test]
fn test_detector_detect() {
    let names = vec!["app.log".to_string(), "laravel-2024-01-15.log".to_string()];
    assert!(LaravelDailyLogDetector::detect(&names));
    let none = vec!["app.log".to_string(), "notes.txt".to_string()];
    assert!(!LaravelDailyLogDetector::detect(&none));
}

#[test]
fn test_detector_get_latest() {
    let names = vec![
        "laravel-2024-01-14.log".to_string(),
        "laravel-2024-01-15.log".to_string(),
        "laravel-2024-01-13.log".to_string(),
        "other.log".to_string(),
    ];
    assert_eq!(
        LaravelDailyLogDetector::get_latest(&names),
        Some("laravel-2024-01-15.log".to_string())
    );
    assert_eq!(LaravelDailyLogDetector::get_latest(&vec!["a.txt".to_string()]), None);
}

#[test]
fn test_detector_get_all_sorted() {
    let names = vec![
        "laravel-2024-01-14.log".to_string(),
        "app.log".to_string(),
        "laravel-2024-01-15.log".to_string(),
        "laravel-2024-01-13.log".to_string(),
    ];
    let all = LaravelDailyLogDetector::get_all(&names);
    assert_eq!(
        all,
        vec![
            "laravel-2024-01-15.log".to_string(),
            "laravel-2024-01-14.log".to_string(),
            "laravel-2024-01-13.log".to_string(),
        ]
    );
}

#[test]
fn test_extract_context_direct() {
    let parser = LaravelLogParser::new();
    let (msg, ctx) = parser.extract_context(r#"User logged in {"user_id": 123}"#);
    assert_eq!(msg, "User logged in");
    assert_eq!(ctx, Some(r#"{"user_id": 123}"#.to_string()));
}
