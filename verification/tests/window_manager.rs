//! Tests for the window manager state.

use logr_lib::windows::{WindowInfo, WindowManagerState};

fn info(label: &str, source_id: &str, index: u8, title: &str) -> WindowInfo {
    WindowInfo {
        label: label.to_string(),
        source_id: source_id.to_string(),
        window_index: index,
        title: title.to_string(),
        is_focused: false,
    }
}

#[test]
fn test_get_next_index() {
    let state = WindowManagerState::new();
    assert_eq!(state.get_next_index(), Some(1));
}

#[test]
fn test_register_and_unregister_window() {
    let mut state = WindowManagerState::new();

    let w = info("log-1", "source-1", 1, "Test");

    state.register_window(w.clone());
    assert_eq!(state.get_next_index(), Some(2));
    assert!(state.get_window("log-1").is_some());

    state.unregister_window("log-1");
    assert_eq!(state.get_next_index(), Some(1));
    assert!(state.get_window("log-1").is_none());
}

#[test]
fn test_update_index() {
    let mut state = WindowManagerState::new();

    let w = info("log-1", "source-1", 1, "Test");

    state.register_window(w);
    assert!(state.update_index("log-1", 5).is_ok());

    let window = state.get_window("log-1").unwrap();
    assert_eq!(window.window_index, 5);
    assert_eq!(state.get_label_by_index(5), Some(&"log-1".to_string()));
    assert_eq!(state.get_label_by_index(1), None);
}

#[test]
fn test_update_index_conflict() {
    let mut state = WindowManagerState::new();
    state.register_window(info("log-1", "source-1", 1, "One"));
    state.register_window(info("log-2", "source-2", 2, "Two"));
    assert!(state.update_index("log-1", 2).is_err());
    assert!(state.update_index("log-1", 1).is_ok());
    assert!(state.update_index("missing", 3).is_err());
}

#[test]
fn test_get_window_for_source() {
    let mut state = WindowManagerState::new();

    let w = info("log-1", "source-1", 1, "Test");

    state.register_window(w);
    assert!(state.get_window_for_source("source-1").is_some());
    assert!(state.get_window_for_source("source-2").is_none());
}

#[test]
fn test_get_all_windows() {
    let mut state = WindowManagerState::new();
    state.register_window(info("log-1", "source-1", 1, "One"));
    state.register_window(info("log-2", "source-2", 2, "Two"));
    let all = state.get_all_windows();
    assert_eq!(all.len(), 2);
    assert_eq!(all[0].label, "log-1");
    assert_eq!(all[1].label, "log-2");
}

#[test]
fn test_next_index_exhaustion() {
    let mut state = WindowManagerState::new();
    for i in 1..=9u8 {
        state.register_window(info(&format!("log-{}", i), &format!("source-{}", i), i, "W"));
    }
    assert_eq!(state.get_next_index(), None);
}
