use kafka_term::app::{App, AppMode, SearchType};
use kafka_term::control::{connection_check, ListPurpose, Outcome, Request};
use kafka_term::download::DirCopyResult;
use kafka_term::event::Action;
use kafka_term::navigate::NavigateTarget;
use kafka_term::types::{DirectoryEntry, EntryType, StatusLevel};

fn make_entry(name: &str, dir: &str, entry_type: EntryType, size: u64) -> DirectoryEntry {
    DirectoryEntry { name: name.to_string(), path: format!("{}/{}", dir, name), entry_type, size }
}

fn sample() -> App {
    App::new(
        "/home/u".to_string(),
        vec![
            make_entry("logs", "/home/u", EntryType::Directory, 0),
            make_entry("a.txt", "/home/u", EntryType::File, 10),
        ],
    )
}

fn status_text(app: &App) -> Option<(String, StatusLevel)> {
    app.status_message.as_ref().map(|m| (m.text.clone(), m.level))
}

#[test]
fn enter_directory_lists_then_moves() {
    let mut app = sample();
    let req = app.handle_action(Action::Enter);
    assert_eq!(
        req,
        Request::ListDirectory {
            path: "/home/u/logs".to_string(),
            show_hidden: false,
            purpose: ListPurpose::EnterDirectory
        }
    );
    let listed = vec![make_entry("x.log", "/home/u/logs", EntryType::File, 1)];
    let next = app.complete(req, Outcome::Listed(Ok(listed)));
    assert_eq!(next, Request::Idle);
    assert_eq!(app.current_path, "/home/u/logs");
    assert_eq!(app.entries.len(), 1);
    assert_eq!(app.selected_index, 0);
}

#[test]
fn enter_on_file_does_nothing() {
    let mut app = sample();
    app.move_cursor_down();
    assert_eq!(app.handle_action(Action::Enter), Request::Idle);
}

#[test]
fn listing_failure_sets_error_status() {
    let mut app = sample();
    let req = app.handle_action(Action::GoParent);
    assert_eq!(
        req,
        Request::ListDirectory { path: "/home".to_string(), show_hidden: false, purpose: ListPurpose::GoParent }
    );
    app.complete(req, Outcome::Listed(Err("Permission denied: /home".to_string())));
    assert_eq!(app.current_path, "/home/u");
    assert_eq!(status_text(&app), Some(("Permission denied: /home".to_string(), StatusLevel::Error)));
}

#[test]
fn go_parent_at_root_is_idle() {
    let mut app = App::new("/".to_string(), vec![]);
    assert_eq!(app.handle_action(Action::GoParent), Request::Idle);
}

#[test]
fn toggle_hidden_refreshes() {
    let mut app = sample();
    app.move_cursor_down();
    let req = app.handle_action(Action::ToggleHidden);
    assert!(app.show_hidden);
    assert_eq!(
        req,
        Request::ListDirectory { path: "/home/u".to_string(), show_hidden: true, purpose: ListPurpose::Refresh }
    );
    app.complete(req, Outcome::Listed(Ok(vec![])));
    assert_eq!(app.selected_index, 0);
    assert!(app.entries.is_empty());
}

#[test]
fn open_file_asks_for_viewer() {
    let mut app = sample();
    app.move_cursor_down();
    let req = app.handle_action(Action::OpenFile);
    assert_eq!(req, Request::ViewFile { remote: "/home/u/a.txt".to_string() });
    app.complete(req, Outcome::Viewed(Err("File too large".to_string())));
    assert_eq!(status_text(&app), Some(("File too large".to_string(), StatusLevel::Error)));
}

#[test]
fn copy_file_flow_without_existing_destination() {
    let mut app = sample();
    app.move_cursor_down();
    assert_eq!(app.handle_action(Action::CopyFile), Request::Idle);
    assert_eq!(app.mode, AppMode::PathPrompt);
    assert_eq!(app.get_path_input(), Some("a.txt"));
    let req = app.handle_action(Action::ConfirmInput);
    assert_eq!(req, Request::CheckDestination { input: "a.txt".to_string() });
    let copy = app.complete(
        req,
        Outcome::DestinationChecked { local: "/work/a.txt".to_string(), check: Ok(false) },
    );
    assert_eq!(copy, Request::CopyFile { remote: "/home/u/a.txt".to_string(), local: "/work/a.txt".to_string() });
    assert_eq!(app.mode, AppMode::Browsing);
    app.complete(copy, Outcome::FileCopied(Ok(2048)));
    assert_eq!(status_text(&app), Some(("Copied 2.0 KB to /work/a.txt".to_string(), StatusLevel::Success)));
}

#[test]
fn copy_file_flow_with_overwrite() {
    let mut app = sample();
    app.move_cursor_down();
    app.handle_action(Action::CopyFile);
    let req = app.handle_action(Action::ConfirmInput);
    let next = app.complete(req, Outcome::DestinationChecked { local: "/work/a.txt".to_string(), check: Ok(true) });
    assert_eq!(next, Request::Idle);
    assert_eq!(app.mode, AppMode::OverwriteConfirm { path: "/work/a.txt".to_string() });
    let copy = app.handle_action(Action::ConfirmOverwrite);
    assert_eq!(copy, Request::CopyFile { remote: "/home/u/a.txt".to_string(), local: "/work/a.txt".to_string() });
    assert_eq!(app.mode, AppMode::Browsing);
    assert!(app.path_prompt_state.is_none());
}

#[test]
fn copy_destination_rejected() {
    let mut app = sample();
    app.move_cursor_down();
    app.handle_action(Action::CopyFile);
    let req = app.handle_action(Action::ConfirmInput);
    app.complete(
        req,
        Outcome::DestinationChecked {
            local: "/nope/a.txt".to_string(),
            check: Err("Parent directory does not exist: /nope".to_string()),
        },
    );
    assert_eq!(app.mode, AppMode::Browsing);
    assert_eq!(
        status_text(&app),
        Some(("Parent directory does not exist: /nope".to_string(), StatusLevel::Error))
    );
}

#[test]
fn deny_overwrite_returns_to_browsing() {
    let mut app = sample();
    app.mode = AppMode::OverwriteConfirm { path: "/x".to_string() };
    assert_eq!(app.handle_action(Action::DenyOverwrite), Request::Idle);
    assert_eq!(app.mode, AppMode::Browsing);
}

#[test]
fn directory_copy_flow() {
    let mut app = sample();
    let req = app.handle_action(Action::CopyFile);
    assert_eq!(req, Request::MeasureDirectory { remote: "/home/u/logs".to_string() });
    app.complete(req, Outcome::Measured(Ok(4096)));
    assert_eq!(app.mode, AppMode::DirectoryCopyConfirm { path: "/home/u/logs".to_string(), size: 4096 });
    assert_eq!(app.handle_action(Action::ConfirmOverwrite), Request::Idle);
    assert_eq!(app.mode, AppMode::PathPrompt);
    assert_eq!(app.get_path_input(), Some("logs"));
    let check = app.handle_action(Action::ConfirmInput);
    let copy = app.complete(check, Outcome::DestinationChecked { local: "/work/logs".to_string(), check: Ok(false) });
    assert_eq!(
        copy,
        Request::CopyDirectory {
            remote: "/home/u/logs".to_string(),
            local: "/work/logs".to_string(),
            replace_existing: false
        }
    );
    let result = DirCopyResult {
        bytes_transferred: 3072,
        files_copied: 3,
        failures: vec![("/home/u/logs/bad".to_string(), "denied".to_string())],
        symlinks_skipped: 1,
    };
    app.complete(copy, Outcome::DirectoryCopied(Ok(result)));
    assert_eq!(
        status_text(&app),
        Some(("Copied 3 files (3.0 KB) to /work/logs; 1 failed".to_string(), StatusLevel::Error))
    );
}

#[test]
fn directory_copy_replaces_existing_destination() {
    let mut app = sample();
    app.mode = AppMode::OverwriteConfirm { path: "/work/logs".to_string() };
    let req = app.handle_action(Action::ConfirmOverwrite);
    assert_eq!(
        req,
        Request::CopyDirectory {
            remote: "/home/u/logs".to_string(),
            local: "/work/logs".to_string(),
            replace_existing: true
        }
    );
    let ok = DirCopyResult { bytes_transferred: 0, files_copied: 0, failures: vec![], symlinks_skipped: 0 };
    app.complete(req, Outcome::DirectoryCopied(Ok(ok)));
    assert_eq!(status_text(&app), Some(("Copied 0 files (0 B) to /work/logs".to_string(), StatusLevel::Success)));
}

#[test]
fn measure_failure_stays_in_browser() {
    let mut app = sample();
    let req = app.handle_action(Action::CopyFile);
    app.complete(req, Outcome::Measured(Err("Connection failed: du".to_string())));
    assert_eq!(app.mode, AppMode::Browsing);
    assert_eq!(status_text(&app), Some(("Connection failed: du".to_string(), StatusLevel::Error)));
}

#[test]
fn search_flow_local() {
    let mut app = sample();
    app.handle_action(Action::StartLocalFind);
    app.handle_action(Action::CharInput('l'));
    app.handle_action(Action::CharInput('o'));
    let req = app.handle_action(Action::ConfirmInput);
    assert_eq!(
        req,
        Request::LocalFind { dir: "/home/u".to_string(), query: "lo".to_string(), show_hidden: false }
    );
    assert_eq!(app.mode, AppMode::Searching { search_type: SearchType::Local, progress: 0 });
    let found = vec![make_entry("x.log", "/home/u/logs", EntryType::File, 1)];
    app.complete(req, Outcome::Found(Ok(found)));
    assert_eq!(app.mode, AppMode::SearchResults);
    let open = app.handle_action(Action::Enter);
    assert_eq!(
        open,
        Request::ListDirectory {
            path: "/home/u/logs".to_string(),
            show_hidden: false,
            purpose: ListPurpose::SearchSelection(Some("x.log".to_string()))
        }
    );
    let listed = vec![
        make_entry("a.log", "/home/u/logs", EntryType::File, 1),
        make_entry("x.log", "/home/u/logs", EntryType::File, 1),
    ];
    app.complete(open, Outcome::Listed(Ok(listed)));
    assert_eq!(app.current_path, "/home/u/logs");
    assert_eq!(app.selected_index, 1);
    assert_eq!(app.mode, AppMode::Browsing);
    assert!(app.search_state.is_none());
}

#[test]
fn search_with_empty_query_cancels() {
    let mut app = sample();
    app.handle_action(Action::StartGlobalFind);
    assert_eq!(app.handle_action(Action::ConfirmInput), Request::Idle);
    assert_eq!(app.mode, AppMode::Browsing);
    assert!(app.search_state.is_none());
}

#[test]
fn search_failure_cancels_and_reports() {
    let mut app = sample();
    app.handle_action(Action::StartGlobalFind);
    app.handle_action(Action::CharInput('q'));
    let req = app.handle_action(Action::ConfirmInput);
    assert!(matches!(req, Request::GlobalFind { .. }));
    app.complete(req, Outcome::Found(Err("Connection lost".to_string())));
    assert_eq!(app.mode, AppMode::Browsing);
    assert_eq!(status_text(&app), Some(("Connection lost".to_string(), StatusLevel::Error)));
}

#[test]
fn navigate_to_file_selects_it() {
    let mut app = sample();
    app.handle_action(Action::StartNavigate);
    for c in "/var/log/syslog".chars() {
        app.handle_action(Action::CharInput(c));
    }
    let req = app.handle_action(Action::ConfirmInput);
    assert_eq!(req, Request::ResolveNavigate { path: "/var/log/syslog".to_string() });
    let list = app.complete(
        req,
        Outcome::NavigateResolved(Ok(NavigateTarget::File {
            parent: "/var/log".to_string(),
            filename: "syslog".to_string(),
        })),
    );
    assert_eq!(app.mode, AppMode::Browsing);
    assert_eq!(
        list,
        Request::ListDirectory {
            path: "/var/log".to_string(),
            show_hidden: false,
            purpose: ListPurpose::NavigateFile("syslog".to_string())
        }
    );
    let listed = vec![
        make_entry("auth.log", "/var/log", EntryType::File, 1),
        make_entry("kern.log", "/var/log", EntryType::File, 1),
        make_entry("syslog", "/var/log", EntryType::File, 1),
    ];
    app.complete(list, Outcome::Listed(Ok(listed)));
    assert_eq!(app.current_path, "/var/log");
    assert_eq!(app.selected_index, 2);
}

#[test]
fn navigate_to_directory() {
    let mut app = sample();
    app.handle_action(Action::StartNavigate);
    for c in "/opt".chars() {
        app.handle_action(Action::CharInput(c));
    }
    let req = app.handle_action(Action::ConfirmInput);
    let list = app.complete(req, Outcome::NavigateResolved(Ok(NavigateTarget::Directory("/opt".to_string()))));
    assert_eq!(
        list,
        Request::ListDirectory { path: "/opt".to_string(), show_hidden: false, purpose: ListPurpose::NavigateDirectory }
    );
}

#[test]
fn navigate_relative_path_is_refused() {
    let mut app = sample();
    app.handle_action(Action::StartNavigate);
    app.handle_action(Action::CharInput('x'));
    assert_eq!(app.handle_action(Action::ConfirmInput), Request::Idle);
    assert_eq!(app.mode, AppMode::Browsing);
    assert_eq!(
        status_text(&app),
        Some(("Path must be absolute (start with '/')".to_string(), StatusLevel::Error))
    );
}

#[test]
fn navigate_stat_failure_reports() {
    let mut app = sample();
    app.handle_action(Action::StartNavigate);
    app.handle_action(Action::CharInput('/'));
    let req = app.handle_action(Action::ConfirmInput);
    app.complete(req, Outcome::NavigateResolved(Err("Operation timed out".to_string())));
    assert_eq!(app.mode, AppMode::Browsing);
    assert_eq!(status_text(&app), Some(("Operation timed out".to_string(), StatusLevel::Error)));
}

#[test]
fn mismatched_outcome_changes_nothing() {
    let mut app = sample();
    let req = Request::ViewFile { remote: "/x".to_string() };
    assert_eq!(app.complete(req, Outcome::Measured(Ok(1))), Request::Idle);
    assert_eq!(app.mode, AppMode::Browsing);
    assert!(app.status_message.is_none());
}

#[test]
fn quit_and_cancel() {
    let mut app = sample();
    assert_eq!(app.handle_action(Action::Quit), Request::Quit);
    app.handle_action(Action::StartLocalFind);
    app.handle_action(Action::CancelInput);
    assert_eq!(app.mode, AppMode::Browsing);
    app.handle_action(Action::StartGlobalFind);
    app.handle_action(Action::AbortSearch);
    assert!(app.search_state.is_none());
}

#[test]
fn status_message_visibility() {
    let mut app = sample();
    app.set_status(kafka_term::control::error_status("x".to_string()));
    app.expire_status(2999);
    assert!(app.status_message.is_some());
    app.expire_status(3000);
    assert!(app.status_message.is_none());
}

#[test]
fn select_entry_by_name_sets_correct_index() {
    let entries: Vec<DirectoryEntry> =
        (0..9).map(|i| make_entry(&format!("n{}", i), "/t", EntryType::File, 0)).collect();
    let mut app = App::new("/t".to_string(), entries);
    app.select_entry_by_name("n4");
    assert_eq!(app.selected_index, 4);
    app.select_entry_by_name("__absent__q");
    assert_eq!(app.selected_index, 0);
}

#[test]
fn cursor_move_down_bounds() {
    let entries: Vec<DirectoryEntry> =
        (0..5).map(|i| make_entry(&format!("e{}", i), "/d", EntryType::File, 0)).collect();
    let mut app = App::new("/d".to_string(), entries);
    for expected in [1, 2, 3, 4, 4] {
        app.move_cursor_down();
        assert_eq!(app.selected_index, expected);
    }
}

#[test]
fn cursor_move_up_bounds() {
    let entries: Vec<DirectoryEntry> =
        (0..5).map(|i| make_entry(&format!("e{}", i), "/d", EntryType::File, 0)).collect();
    let mut app = App::new("/d".to_string(), entries);
    app.selected_index = 3;
    for expected in [2, 1, 0, 0] {
        app.move_cursor_up();
        assert_eq!(app.selected_index, expected);
    }
}

#[test]
fn cursor_always_in_bounds_after_movement() {
    for n in 1..6usize {
        for i in 0..n {
            let entries: Vec<DirectoryEntry> =
                (0..n).map(|k| make_entry(&format!("e{}", k), "/d", EntryType::File, 0)).collect();
            let mut down = App::new("/d".to_string(), entries.clone());
            down.selected_index = i;
            down.move_cursor_down();
            assert!(down.selected_index < n);
            let mut up = App::new("/d".to_string(), entries);
            up.selected_index = i;
            up.move_cursor_up();
            assert!(up.selected_index < n);
        }
    }
}

#[test]
fn connection_check_stops_only_when_disconnected() {
    assert!(connection_check(true).is_ok());
    assert_eq!(connection_check(false).unwrap_err(), "SSH connection lost");
}
