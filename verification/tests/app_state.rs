use std::time::{Duration, Instant};

use kafka_term::app::{App, AppMode, SearchType};
use kafka_term::types::{DirectoryEntry, EntryType, StatusLevel, StatusMessage};

fn make_entry(name: &str, entry_type: EntryType) -> DirectoryEntry {
    DirectoryEntry {
        name: name.to_string(),
        path: format!("/test/{}", name),
        entry_type,
        size: 0,
    }
}

fn sample_entries() -> Vec<DirectoryEntry> {
    vec![
        make_entry("alpha", EntryType::Directory),
        make_entry("beta.txt", EntryType::File),
        make_entry("gamma", EntryType::Directory),
    ]
}

#[test]
fn test_new_app_defaults() {
    let entries = sample_entries();
    let app = App::new("/home/user".to_string(), entries.clone());

    assert_eq!(app.mode, AppMode::Browsing);
    assert_eq!(app.current_path, "/home/user");
    assert_eq!(app.selected_index, 0);
    assert!(!app.show_hidden);
    assert!(app.status_message.is_none());
    assert!(app.search_state.is_none());
    assert!(app.path_prompt_state.is_none());
    assert!(app.navigate_prompt_state.is_none());
    assert!(!app.loading);
    assert_eq!(app.entries.len(), 3);
}

#[test]
fn test_move_cursor_down() {
    let mut app = App::new("/".to_string(), sample_entries());
    assert_eq!(app.selected_index, 0);

    app.move_cursor_down();
    assert_eq!(app.selected_index, 1);

    app.move_cursor_down();
    assert_eq!(app.selected_index, 2);

    // At last entry, should clamp
    app.move_cursor_down();
    assert_eq!(app.selected_index, 2);
}

#[test]
fn test_move_cursor_up() {
    let mut app = App::new("/".to_string(), sample_entries());
    app.selected_index = 2;

    app.move_cursor_up();
    assert_eq!(app.selected_index, 1);

    app.move_cursor_up();
    assert_eq!(app.selected_index, 0);

    // At first entry, should clamp
    app.move_cursor_up();
    assert_eq!(app.selected_index, 0);
}

#[test]
fn test_move_cursor_empty_entries() {
    let mut app = App::new("/".to_string(), vec![]);
    app.move_cursor_down();
    assert_eq!(app.selected_index, 0);

    app.move_cursor_up();
    assert_eq!(app.selected_index, 0);
}

#[test]
fn test_selected_entry() {
    let app = App::new("/".to_string(), sample_entries());
    let entry = app.selected_entry().unwrap();
    assert_eq!(entry.name, "alpha");
}

#[test]
fn test_selected_entry_empty() {
    let app = App::new("/".to_string(), vec![]);
    assert!(app.selected_entry().is_none());
}

#[test]
fn test_set_status() {
    let mut app = App::new("/".to_string(), vec![]);
    let msg = StatusMessage {
        text: "File copied".to_string(),
        level: StatusLevel::Success,
        created_at: Instant::now(),
    };
    app.set_status(msg);
    assert!(app.status_message.is_some());
    assert_eq!(app.status_message.as_ref().unwrap().text, "File copied");
}

#[test]
fn test_clear_expired_status_recent() {
    let mut app = App::new("/".to_string(), vec![]);
    let msg = StatusMessage {
        text: "test".to_string(),
        level: StatusLevel::Info,
        created_at: Instant::now(),
    };
    app.set_status(msg);
    app.clear_expired_status();
    // Should still be present since it was just created
    assert!(app.status_message.is_some());
}

#[test]
fn test_clear_expired_status_old() {
    let mut app = App::new("/".to_string(), vec![]);
    let msg = StatusMessage {
        text: "test".to_string(),
        level: StatusLevel::Info,
        created_at: Instant::now() - Duration::from_secs(5),
    };
    app.set_status(msg);
    app.clear_expired_status();
    // Should be cleared since it's older than 3 seconds
    assert!(app.status_message.is_none());
}

#[test]
fn test_select_entry_by_name_found() {
    let mut app = App::new("/".to_string(), sample_entries());
    app.select_entry_by_name("gamma");
    assert_eq!(app.selected_index, 2);
}

#[test]
fn test_select_entry_by_name_not_found() {
    let mut app = App::new("/".to_string(), sample_entries());
    app.selected_index = 2;
    app.select_entry_by_name("nonexistent");
    assert_eq!(app.selected_index, 0);
}

#[test]
fn test_select_entry_by_name_first() {
    let mut app = App::new("/".to_string(), sample_entries());
    app.selected_index = 2;
    app.select_entry_by_name("alpha");
    assert_eq!(app.selected_index, 0);
}

// --- Search operation tests ---

#[test]
fn test_start_search_local() {
    let mut app = App::new("/home".to_string(), sample_entries());
    app.start_search(SearchType::Local);

    assert_eq!(app.mode, AppMode::SearchPrompt { search_type: SearchType::Local });
    assert!(app.search_state.is_some());
    let state = app.search_state.as_ref().unwrap();
    assert_eq!(state.search_type, SearchType::Local);
    assert_eq!(state.query, "");
    assert!(state.results.is_empty());
    assert_eq!(state.selected_index, 0);
}

#[test]
fn test_start_search_global() {
    let mut app = App::new("/home".to_string(), sample_entries());
    app.start_search(SearchType::Global);

    assert_eq!(app.mode, AppMode::SearchPrompt { search_type: SearchType::Global });
    assert!(app.search_state.is_some());
    let state = app.search_state.as_ref().unwrap();
    assert_eq!(state.search_type, SearchType::Global);
}

#[test]
fn test_append_search_char() {
    let mut app = App::new("/".to_string(), sample_entries());
    app.start_search(SearchType::Local);

    app.append_search_char('h');
    app.append_search_char('e');
    app.append_search_char('l');

    assert_eq!(app.search_query(), Some("hel"));
}

#[test]
fn test_append_search_char_no_state() {
    let mut app = App::new("/".to_string(), sample_entries());
    // No search state active — should not panic
    app.append_search_char('x');
    assert!(app.search_state.is_none());
}

#[test]
fn test_delete_search_char() {
    let mut app = App::new("/".to_string(), sample_entries());
    app.start_search(SearchType::Local);

    app.append_search_char('a');
    app.append_search_char('b');
    app.delete_search_char();

    assert_eq!(app.search_query(), Some("a"));
}

#[test]
fn test_delete_search_char_empty() {
    let mut app = App::new("/".to_string(), sample_entries());
    app.start_search(SearchType::Local);

    // Delete on empty query should not panic
    app.delete_search_char();
    assert_eq!(app.search_query(), Some(""));
}

#[test]
fn test_set_search_results() {
    let mut app = App::new("/".to_string(), sample_entries());
    app.start_search(SearchType::Local);

    let results = vec![
        make_entry("found1.txt", EntryType::File),
        make_entry("found2", EntryType::Directory),
    ];
    app.set_search_results(results);

    assert_eq!(app.mode, AppMode::SearchResults);
    let state = app.search_state.as_ref().unwrap();
    assert_eq!(state.results.len(), 2);
    assert_eq!(state.selected_index, 0);
}

#[test]
fn test_cancel_search() {
    let mut app = App::new("/".to_string(), sample_entries());
    app.start_search(SearchType::Global);
    app.append_search_char('x');

    app.cancel_search();

    assert_eq!(app.mode, AppMode::Browsing);
    assert!(app.search_state.is_none());
}

#[test]
fn test_move_search_cursor_down() {
    let mut app = App::new("/".to_string(), sample_entries());
    app.start_search(SearchType::Local);
    let results = vec![
        make_entry("a.txt", EntryType::File),
        make_entry("b.txt", EntryType::File),
        make_entry("c.txt", EntryType::File),
    ];
    app.set_search_results(results);

    app.move_search_cursor_down();
    assert_eq!(app.search_state.as_ref().unwrap().selected_index, 1);

    app.move_search_cursor_down();
    assert_eq!(app.search_state.as_ref().unwrap().selected_index, 2);

    // Clamps at last
    app.move_search_cursor_down();
    assert_eq!(app.search_state.as_ref().unwrap().selected_index, 2);
}

#[test]
fn test_move_search_cursor_up() {
    let mut app = App::new("/".to_string(), sample_entries());
    app.start_search(SearchType::Local);
    let results = vec![
        make_entry("a.txt", EntryType::File),
        make_entry("b.txt", EntryType::File),
    ];
    app.set_search_results(results);

    // Move to second item first
    app.move_search_cursor_down();
    assert_eq!(app.search_state.as_ref().unwrap().selected_index, 1);

    app.move_search_cursor_up();
    assert_eq!(app.search_state.as_ref().unwrap().selected_index, 0);

    // Clamps at first
    app.move_search_cursor_up();
    assert_eq!(app.search_state.as_ref().unwrap().selected_index, 0);
}

#[test]
fn test_selected_search_entry() {
    let mut app = App::new("/".to_string(), sample_entries());
    app.start_search(SearchType::Local);
    let results = vec![
        make_entry("first.txt", EntryType::File),
        make_entry("second", EntryType::Directory),
    ];
    app.set_search_results(results);

    let entry = app.selected_search_entry().unwrap();
    assert_eq!(entry.name, "first.txt");

    app.move_search_cursor_down();
    let entry = app.selected_search_entry().unwrap();
    assert_eq!(entry.name, "second");
}

#[test]
fn test_selected_search_entry_no_state() {
    let app = App::new("/".to_string(), sample_entries());
    assert!(app.selected_search_entry().is_none());
}

#[test]
fn test_selected_search_entry_empty_results() {
    let mut app = App::new("/".to_string(), sample_entries());
    app.start_search(SearchType::Local);
    app.set_search_results(vec![]);
    assert!(app.selected_search_entry().is_none());
}

#[test]
fn test_resolve_search_selection_directory() {
    let mut app = App::new("/".to_string(), sample_entries());
    app.start_search(SearchType::Local);
    let results = vec![DirectoryEntry {
        name: "logs".to_string(),
        path: "/home/user/logs".to_string(),
        entry_type: EntryType::Directory,
        size: 0,
    }];
    app.set_search_results(results);

    let nav = app.resolve_search_selection().unwrap();
    assert_eq!(nav.target_path, "/home/user/logs");
    assert_eq!(nav.select_filename, None);
}

#[test]
fn test_resolve_search_selection_file() {
    let mut app = App::new("/".to_string(), sample_entries());
    app.start_search(SearchType::Global);
    let results = vec![DirectoryEntry {
        name: "app.log".to_string(),
        path: "/home/user/logs/app.log".to_string(),
        entry_type: EntryType::File,
        size: 4096,
    }];
    app.set_search_results(results);

    let nav = app.resolve_search_selection().unwrap();
    assert_eq!(nav.target_path, "/home/user/logs");
    assert_eq!(nav.select_filename, Some("app.log".to_string()));
}

#[test]
fn test_resolve_search_selection_no_state() {
    let app = App::new("/".to_string(), sample_entries());
    assert!(app.resolve_search_selection().is_none());
}

#[test]
fn test_set_searching() {
    let mut app = App::new("/".to_string(), sample_entries());
    app.set_searching(SearchType::Global);
    assert_eq!(app.mode, AppMode::Searching { search_type: SearchType::Global, progress: 0 });
}

#[test]
fn test_update_search_progress() {
    let mut app = App::new("/".to_string(), sample_entries());
    app.set_searching(SearchType::Global);
    app.update_search_progress(42);
    assert_eq!(app.mode, AppMode::Searching { search_type: SearchType::Global, progress: 42 });
}

#[test]
fn test_update_search_progress_wrong_mode() {
    let mut app = App::new("/".to_string(), sample_entries());
    // Not in Searching mode — should not panic
    app.update_search_progress(10);
    assert_eq!(app.mode, AppMode::Browsing);
}

#[test]
fn test_search_type_accessor() {
    let mut app = App::new("/".to_string(), sample_entries());
    assert!(app.search_type().is_none());

    app.start_search(SearchType::Global);
    assert_eq!(app.search_type(), Some(&SearchType::Global));
}

// --- Navigate prompt tests ---

#[test]
fn test_start_navigate() {
    let mut app = App::new("/".to_string(), sample_entries());
    app.start_navigate();
    assert_eq!(app.mode, AppMode::NavigatePrompt);
    assert!(app.navigate_prompt_state.is_some());
    assert_eq!(app.navigate_prompt_state.as_ref().unwrap().input, "");
}

#[test]
fn test_append_navigate_char() {
    let mut app = App::new("/".to_string(), sample_entries());
    app.start_navigate();
    app.append_navigate_char('/');
    app.append_navigate_char('h');
    app.append_navigate_char('o');
    app.append_navigate_char('m');
    app.append_navigate_char('e');
    assert_eq!(app.get_navigate_input(), Some("/home"));
}

#[test]
fn test_delete_navigate_char() {
    let mut app = App::new("/".to_string(), sample_entries());
    app.start_navigate();
    app.append_navigate_char('/');
    app.append_navigate_char('a');
    app.delete_navigate_char();
    assert_eq!(app.get_navigate_input(), Some("/"));
}

#[test]
fn test_delete_navigate_char_empty() {
    let mut app = App::new("/".to_string(), sample_entries());
    app.start_navigate();
    app.delete_navigate_char(); // Should not panic on empty
    assert_eq!(app.get_navigate_input(), Some(""));
}

#[test]
fn test_cancel_navigate() {
    let mut app = App::new("/".to_string(), sample_entries());
    app.start_navigate();
    app.append_navigate_char('/');
    app.cancel_navigate();
    assert_eq!(app.mode, AppMode::Browsing);
    assert!(app.navigate_prompt_state.is_none());
    assert_eq!(app.get_navigate_input(), None);
}

#[test]
fn test_get_navigate_input_not_active() {
    let app = App::new("/".to_string(), sample_entries());
    assert_eq!(app.get_navigate_input(), None);
}

// --- Path prompt (copy) tests ---

#[test]
fn test_start_copy_prompt() {
    let mut app = App::new("/".to_string(), sample_entries());
    app.start_copy_prompt("file.log".to_string());
    assert_eq!(app.mode, AppMode::PathPrompt);
    assert!(app.path_prompt_state.is_some());
    let state = app.path_prompt_state.as_ref().unwrap();
    assert_eq!(state.input, "file.log");
    assert_eq!(state.default_name, "file.log");
}

#[test]
fn test_append_path_char() {
    let mut app = App::new("/".to_string(), sample_entries());
    app.start_copy_prompt("file.log".to_string());
    app.append_path_char('.');
    app.append_path_char('b');
    app.append_path_char('k');
    assert_eq!(app.get_path_input(), Some("file.log.bk"));
}

#[test]
fn test_delete_path_char() {
    let mut app = App::new("/".to_string(), sample_entries());
    app.start_copy_prompt("file.log".to_string());
    app.delete_path_char();
    assert_eq!(app.get_path_input(), Some("file.lo"));
}

#[test]
fn test_delete_path_char_empty() {
    let mut app = App::new("/".to_string(), sample_entries());
    app.start_copy_prompt(String::new());
    app.delete_path_char(); // Should not panic on empty
    assert_eq!(app.get_path_input(), Some(""));
}

#[test]
fn test_cancel_path_prompt() {
    let mut app = App::new("/".to_string(), sample_entries());
    app.start_copy_prompt("file.log".to_string());
    app.cancel_path_prompt();
    assert_eq!(app.mode, AppMode::Browsing);
    assert!(app.path_prompt_state.is_none());
    assert_eq!(app.get_path_input(), None);
}

#[test]
fn test_get_path_input_not_active() {
    let app = App::new("/".to_string(), sample_entries());
    assert_eq!(app.get_path_input(), None);
}

