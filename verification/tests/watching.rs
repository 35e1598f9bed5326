//! Tests for the path-state tracker and the engine: watch registration,
//! append/truncate deltas, line numbering, ledgers and resolution.

use logr_lib::events::EngineEvent;
use logr_lib::ports::{FileWatchEvent, WatchError};
use logr_lib::state::{limit_tail, select_latest_match, LogWatcherState, ReadTarget, StateError};
use logr_lib::watcher::{Delta, DirFile, FileStat, WatchTracker};

fn file_stat(size: u64, line_count: u64) -> FileStat {
    FileStat::File { size, line_count }
}

#[test]
fn test_watch_nonexistent_file() {
    let mut watcher = WatchTracker::new();
    let result = watcher.watch_file("/nonexistent/path.log", FileStat::Missing);
    assert!(matches!(result, Err(WatchError::FileNotFound(_))));
}

#[test]
fn test_watch_directory_as_file() {
    let mut watcher = WatchTracker::new();
    let result = watcher.watch_file("/tmp/somedir", FileStat::Dir);
    assert!(matches!(result, Err(WatchError::NotAFile(_))));
}

#[test]
fn test_watch_file() {
    let mut watcher = WatchTracker::new();
    assert!(watcher.watch_file("/tmp/test.log", file_stat(0, 0)).is_ok());
    assert!(watcher.is_watching("/tmp/test.log"));
}

#[test]
fn test_watch_file_twice_fails() {
    let mut watcher = WatchTracker::new();
    watcher.watch_file("/tmp/test.log", file_stat(0, 0)).unwrap();
    let again = watcher.watch_file("/tmp/test.log", file_stat(0, 0));
    assert!(matches!(again, Err(WatchError::AlreadyWatching(_))));
}

#[test]
fn test_unwatch_file() {
    let mut watcher = WatchTracker::new();
    watcher.watch_file("/tmp/test.log", file_stat(0, 0)).unwrap();
    assert!(watcher.unwatch("/tmp/test.log").is_ok());
    assert!(!watcher.is_watching("/tmp/test.log"));
}

#[test]
fn test_unwatch_unknown_fails() {
    let mut watcher = WatchTracker::new();
    assert!(matches!(
        watcher.unwatch("/tmp/test.log"),
        Err(WatchError::NotWatching(_))
    ));
}

#[test]
fn test_observe_deltas() {
    let mut watcher = WatchTracker::new();
    watcher.watch_file("/tmp/a.log", file_stat(10, 2)).unwrap();
    assert_eq!(watcher.observe("/tmp/a.log", 10), Delta::NoChange);
    assert_eq!(
        watcher.observe("/tmp/a.log", 25),
        Delta::Appended { from: 10, to: 25 }
    );
}

#[test]
fn test_append_line_numbers_contiguous() {
    // successive appends for one path number their lines in one
    // contiguous run starting at the line count at watch time + 1
    let mut watcher = WatchTracker::new();
    watcher.watch_file("/tmp/a.log", file_stat(10, 3)).unwrap();

    assert!(matches!(watcher.observe("/tmp/a.log", 25), Delta::Appended { .. }));
    let (first, last) = watcher.record_append("/tmp/a.log", 25, 4);
    assert_eq!((first, last), (4, 7));

    assert!(matches!(watcher.observe("/tmp/a.log", 40), Delta::Appended { .. }));
    let (first2, last2) = watcher.record_append("/tmp/a.log", 40, 2);
    assert_eq!(first2, last + 1);
    assert_eq!(last2, 9);
}

#[test]
fn test_truncation_resets_line_numbers() {
    let mut watcher = WatchTracker::new();
    watcher.watch_file("/tmp/a.log", file_stat(100, 50)).unwrap();
    assert_eq!(watcher.observe("/tmp/a.log", 5), Delta::Truncated);
    let (first, last) = watcher.record_append("/tmp/a.log", 5, 2);
    assert_eq!((first, last), (1, 2));
}

#[test]
fn test_watch_directory_prescan() {
    let mut watcher = WatchTracker::new();
    let files = vec![
        DirFile { name: "laravel-2024-01-15.log".to_string(), size: 30, line_count: 3 },
        DirFile { name: "notes.txt".to_string(), size: 5, line_count: 1 },
    ];
    watcher
        .watch_directory("/app/logs", "laravel-*.log", FileStat::Dir, &files)
        .unwrap();
    assert!(watcher.is_watching("/app/logs/laravel-2024-01-15.log"));
    assert!(!watcher.is_watching("/app/logs/notes.txt"));
}

#[test]
fn test_watch_directory_bad_pattern() {
    let mut watcher = WatchTracker::new();
    let r = watcher.watch_directory("/app/logs", "[", FileStat::Dir, &Vec::new());
    assert!(matches!(r, Err(WatchError::WatcherError(_))));
}

#[test]
fn test_add_file_and_get_sources() {
    let mut state = LogWatcherState::new();
    let source = state
        .add_file("/var/log/app.log", None, file_stat(0, 0), 1000)
        .unwrap();
    assert_eq!(source.id, "source-1");
    assert_eq!(source.name, "app.log");
    assert_eq!(state.get_sources().len(), 1);
    let fetched = state.get_source("source-1").unwrap();
    assert_eq!(fetched.name, "app.log");
    assert!(state.get_source("source-9").is_none());
}

#[test]
fn test_add_file_twice_fails() {
    let mut state = LogWatcherState::new();
    state
        .add_file("/var/log/app.log", None, file_stat(0, 0), 0)
        .unwrap();
    let again = state.add_file("/var/log/app.log", None, file_stat(0, 0), 0);
    assert!(matches!(again, Err(StateError::AlreadyWatching)));
}

#[test]
fn test_add_file_empty_path_fails() {
    let mut state = LogWatcherState::new();
    assert!(matches!(
        state.add_file("", None, file_stat(0, 0), 0),
        Err(StateError::InvalidPath)
    ));
}

#[test]
fn test_add_file_missing_fails() {
    let mut state = LogWatcherState::new();
    let r = state.add_file("/gone.log", None, FileStat::Missing, 0);
    assert!(matches!(r, Err(StateError::Watch(WatchError::FileNotFound(_)))));
}

#[test]
fn test_add_folder_on_file_fails() {
    let mut state = LogWatcherState::new();
    let r = state.add_folder("/var/log/app.log", "*.log", None, file_stat(0, 0), &Vec::new(), 0);
    assert!(matches!(r, Err(StateError::Watch(WatchError::NotADirectory(_)))));
}

#[test]
fn test_add_folder_bad_pattern_fails() {
    let mut state = LogWatcherState::new();
    let r = state.add_folder("/var/log", "[", None, FileStat::Dir, &Vec::new(), 0);
    assert!(matches!(r, Err(StateError::Watch(WatchError::WatcherError(_)))));
}

#[test]
fn test_remove_source() {
    let mut state = LogWatcherState::new();
    let source = state
        .add_file("/var/log/app.log", None, file_stat(0, 0), 0)
        .unwrap();
    assert!(state.remove_source(&source.id).is_ok());
    assert!(state.get_source(&source.id).is_none());
    assert!(matches!(
        state.remove_source(&source.id),
        Err(StateError::NotFound)
    ));
}

#[test]
fn test_update_status_unknown_fails() {
    let mut state = LogWatcherState::new();
    let r = state.update_status(
        "nope",
        logr_lib::log_source::LogSourceStatus::Paused,
        None,
    );
    assert!(matches!(r, Err(StateError::NotFound)));
}

#[test]
fn test_content_appended_fills_ledger() {
    let mut state = LogWatcherState::new();
    let source = state
        .add_file("/var/log/app.log", None, file_stat(0, 0), 0)
        .unwrap();
    let events = state.process_file_event(
        FileWatchEvent::ContentAppended {
            path: "/var/log/app.log".to_string(),
            content: "[2024-01-15 10:30:00] local.ERROR: Boom\nplain line".to_string(),
            line_number: 2,
        },
        500,
    );
    assert_eq!(events.len(), 1);
    match &events[0] {
        EngineEvent::Entries(ev) => {
            assert_eq!(ev.source_id, source.id);
            assert_eq!(ev.entries.len(), 2);
            assert_eq!(ev.entries[0].line_number, 1);
            assert_eq!(ev.entries[0].message, "Boom");
            assert_eq!(ev.entries[1].line_number, 2);
            assert_eq!(ev.entries[1].message, "plain line");
        },
        _ => panic!("expected an entries event"),
    }
    let stored = state.get_entries(&source.id, None);
    assert_eq!(stored.len(), 2);
}

#[test]
fn test_get_entries_idempotent() {
    // reading twice with no intervening writes returns identical
    // sequences
    let mut state = LogWatcherState::new();
    let source = state
        .add_file("/var/log/app.log", None, file_stat(0, 0), 0)
        .unwrap();
    state.process_file_event(
        FileWatchEvent::ContentAppended {
            path: "/var/log/app.log".to_string(),
            content: "one\ntwo\nthree".to_string(),
            line_number: 3,
        },
        0,
    );
    let a = state.get_entries(&source.id, None);
    let b = state.get_entries(&source.id, None);
    assert_eq!(a, b);
    assert_eq!(a.len(), 3);
}

#[test]
fn test_get_entries_limit_keeps_most_recent() {
    let mut state = LogWatcherState::new();
    let source = state
        .add_file("/var/log/app.log", None, file_stat(0, 0), 0)
        .unwrap();
    state.process_file_event(
        FileWatchEvent::ContentAppended {
            path: "/var/log/app.log".to_string(),
            content: "one\ntwo\nthree".to_string(),
            line_number: 3,
        },
        0,
    );
    let tail = state.get_entries(&source.id, Some(2));
    assert_eq!(tail.len(), 2);
    assert_eq!(tail[0].message, "two");
    assert_eq!(tail[1].message, "three");
}

#[test]
fn test_truncation_clears_entries() {
    let mut state = LogWatcherState::new();
    let source = state
        .add_file("/var/log/app.log", None, file_stat(0, 0), 0)
        .unwrap();
    state.process_file_event(
        FileWatchEvent::ContentAppended {
            path: "/var/log/app.log".to_string(),
            content: "one".to_string(),
            line_number: 1,
        },
        0,
    );
    assert_eq!(state.get_entries(&source.id, None).len(), 1);
    let events = state.process_file_event(
        FileWatchEvent::FileTruncated { path: "/var/log/app.log".to_string() },
        0,
    );
    assert!(matches!(events[0], EngineEvent::Truncated(_)));
    assert_eq!(state.get_entries(&source.id, None).len(), 0);
}

#[test]
fn test_deleted_file_marks_source_errored() {
    let mut state = LogWatcherState::new();
    let source = state
        .add_file("/var/log/app.log", None, file_stat(0, 0), 0)
        .unwrap();
    let events = state.process_file_event(
        FileWatchEvent::FileDeleted { path: "/var/log/app.log".to_string() },
        0,
    );
    assert_eq!(events.len(), 1);
    match &events[0] {
        EngineEvent::Status(ev) => {
            assert_eq!(ev.error_message.as_deref(), Some("File deleted"));
        },
        _ => panic!("expected a status event"),
    }
    let fetched = state.get_source(&source.id).unwrap();
    assert!(fetched.has_error());
}

#[test]
fn test_event_for_unknown_path_is_ignored() {
    let mut state = LogWatcherState::new();
    let events = state.process_file_event(
        FileWatchEvent::ContentAppended {
            path: "/elsewhere.log".to_string(),
            content: "one".to_string(),
            line_number: 1,
        },
        0,
    );
    assert!(events.is_empty());
}

#[test]
fn test_directory_source_resolution() {
    // a file under a watched folder whose pattern matches resolves to
    // that folder's source; a sibling unwatched directory does not
    let mut state = LogWatcherState::new();
    let source = state
        .add_folder("app/logs", "laravel-*.log", None, FileStat::Dir, &Vec::new(), 0)
        .unwrap();
    assert_eq!(
        state.get_source_id_for_path("app/logs/laravel-2024-01-15.log"),
        Some(source.id.clone())
    );
    assert_eq!(state.get_source_id_for_path("app/other/laravel-2024-01-15.log"), None);
    assert_eq!(state.get_source_id_for_path("app/logs/notes.txt"), None);
}

#[test]
fn test_exact_path_resolution() {
    let mut state = LogWatcherState::new();
    let source = state
        .add_file("/var/log/app.log", None, file_stat(0, 0), 0)
        .unwrap();
    assert_eq!(
        state.get_source_id_for_path("/var/log/app.log"),
        Some(source.id)
    );
}

#[test]
fn test_initial_read_target() {
    let mut state = LogWatcherState::new();
    let file_source = state
        .add_file("/var/log/app.log", None, file_stat(0, 0), 0)
        .unwrap();
    let folder_source = state
        .add_folder("/app/logs", "laravel-*.log", None, FileStat::Dir, &Vec::new(), 0)
        .unwrap();
    assert!(matches!(
        state.initial_read_target(&file_source.id),
        Ok(ReadTarget::Single(p)) if p == "/var/log/app.log"
    ));
    assert!(matches!(
        state.initial_read_target(&folder_source.id),
        Ok(ReadTarget::FolderScan { path, pattern })
            if path == "/app/logs" && pattern == "laravel-*.log"
    ));
    assert!(matches!(
        state.initial_read_target("missing"),
        Err(StateError::NotFound)
    ));
}

#[test]
fn test_ingest_initial_lines_multiline() {
    let mut state = LogWatcherState::new();
    let source = state
        .add_file("/var/log/app.log", None, file_stat(0, 0), 0)
        .unwrap();
    let lines: Vec<(u64, String)> = vec![
        (1, "[2024-01-15 10:30:00] local.ERROR: Exception occurred".to_string()),
        (2, "#0 /app/Controller.php(50): method()".to_string()),
        (3, "#1 /app/Router.php(100): Controller->handle()".to_string()),
        (4, "[2024-01-15 10:30:01] local.INFO: Next entry".to_string()),
    ];
    let entries = state.ingest_initial_lines(&source.id, &lines, 0).unwrap();
    assert_eq!(entries.len(), 2);
    assert_eq!(entries[0].stack_trace.as_ref().unwrap().len(), 2);
    assert_eq!(entries[1].message, "Next entry");
    assert_eq!(state.get_entries(&source.id, None).len(), 2);
}

#[test]
fn test_select_latest_match() {
    let names = vec![
        "laravel-2024-01-14.log".to_string(),
        "laravel-2024-01-15.log".to_string(),
        "readme.md".to_string(),
    ];
    assert_eq!(
        select_latest_match("laravel-*.log", &names),
        Some("laravel-2024-01-15.log".to_string())
    );
    assert_eq!(select_latest_match("*.conf", &names), None);
}

#[test]
fn test_limit_tail_keeps_last_lines() {
    let mut lines: Vec<(u64, String)> = Vec::new();
    for i in 1..=100u64 {
        lines.push((i, format!("Line {}", i)));
    }
    let tail = limit_tail(lines, Some(10));
    assert_eq!(tail.len(), 10);
    assert_eq!(tail[0], (91, "Line 91".to_string()));
    assert_eq!(tail[9], (100, "Line 100".to_string()));
}

#[test]
fn test_clear_all_sources() {
    let mut state = LogWatcherState::new();
    state
        .add_file("/var/log/a.log", None, file_stat(0, 0), 0)
        .unwrap();
    state
        .add_file("/var/log/b.log", None, file_stat(0, 0), 0)
        .unwrap();
    state.clear_all_sources();
    assert!(state.get_sources().is_empty());
}

#[test]
fn test_watch_error_messages() {
    let e = WatchError::FileNotFound("/x".to_string());
    assert_eq!(e.message(), "File not found: /x");
    let s = StateError::NotFound;
    assert_eq!(s.message(), "Source not found");
}
