use std::time::Instant;

use kafka_term::app::{App, AppMode, NavigatePromptState, PathPromptState, SearchState, SearchType};
use kafka_term::types::{DirectoryEntry, EntryType, StatusLevel, StatusMessage};
use kafka_term::view::{
    browser_row, browser_rows, browser_view, footer_view, header_view, main_view, prompt_decor,
    prompt_view, BrowserView, FooterView, MainView, PromptView,
};

fn make_entry(name: &str, entry_type: EntryType, size: u64) -> DirectoryEntry {
    DirectoryEntry { name: name.to_string(), path: format!("/remote/{}", name), entry_type, size }
}

fn sample_entries() -> Vec<DirectoryEntry> {
    vec![
        make_entry("docs", EntryType::Directory, 0),
        make_entry("readme.md", EntryType::File, 1024),
        make_entry("link", EntryType::Symlink, 0),
    ]
}

fn header_text(path: &str, user: &str, host: &str, width: usize) -> String {
    let h = header_view(path, user, host, width);
    format!("{}{}{}", h.path, " ".repeat(h.padding), h.connection)
}

/// The text a file list shows, row after row.
fn browser_text(entries: &[DirectoryEntry], width: usize) -> String {
    match browser_view(entries, width) {
        BrowserView::Empty(t) => t,
        BrowserView::Rows(rows) => rows
            .into_iter()
            .map(|r| format!("{}{}{}", r.indicator, r.name, r.size))
            .collect::<Vec<_>>()
            .join("\n"),
    }
}

/// The text the footer shows.
fn footer_text(status: Option<&StatusMessage>, loading: bool) -> String {
    match footer_view(status, loading) {
        FooterView::Loading(t) => t,
        FooterView::Status { text, .. } => text,
        FooterView::KeyHints(hints) => hints.into_iter().map(|h| format!("{}{}", h.key, h.action)).collect(),
    }
}

/// The text a prompt shows: its title, then its line.
fn prompt_text(p: PromptView) -> String {
    let d = prompt_decor(&p);
    let body = match p {
        PromptView::Hidden => String::new(),
        PromptView::SearchInput { label, query } => format!("{}{}", label, query),
        PromptView::SearchProgress(t)
        | PromptView::CopyInput(t)
        | PromptView::Overwrite(t)
        | PromptView::CopyProgress(t)
        | PromptView::NavigateInput(t) => t,
        PromptView::DirectoryConfirm { path, size } => format!("{}{}", path, size),
    };
    format!("{}\n{}{}{}{}", d.title, d.label, body, d.cursor, d.hint)
}

/// The text of the whole screen for `app`, `width` characters wide.
fn screen_text(app: &App, user: &str, host: &str, width: usize) -> String {
    let main = match main_view(app) {
        MainView::Entries => browser_text(&app.entries, width),
        MainView::Results => browser_text(&app.search_state.as_ref().unwrap().results, width),
        MainView::NoResults(t) | MainView::NoSearch(t) => t,
    };
    format!(
        "{}\n{}\n{}\n{}",
        header_text(&app.current_path, user, host, width),
        main,
        prompt_text(prompt_view(app)),
        footer_text(app.status_message.as_ref(), app.loading)
    )
}

fn prompt_of(app: &App) -> String {
    prompt_text(prompt_view(app))
}

#[test]
fn test_render_header_basic() {
    let content = header_text("/home/user/documents", "deploy", "192.168.1.1", 40);
    assert!(content.contains("/home/user/documents"));
    assert!(content.contains("deploy@192.168.1.1"));
    assert_eq!(content.chars().count(), 40);
}

#[test]
fn test_render_header_long_path_truncated() {
    let content = header_text("/very/long/path/that/exceeds/available/width/in/terminal", "user", "host", 40);
    assert!(content.contains("user@host"));
    assert!(content.contains("..."));
    assert_eq!(content, "...available/width/in/terminal user@host");
}

#[test]
fn test_render_header_root_path() {
    let content = header_text("/", "root", "server", 30);
    assert!(content.contains("/"));
    assert!(content.contains("root@server"));
}

#[test]
fn header_cuts_path_to_its_room() {
    let h = header_view("/abcdefghij", "u", "h", 10);
    assert_eq!(h.connection, "u@h");
    assert_eq!(h.path, "...hij");
    assert_eq!(h.padding, 1);
    let narrow = header_view("/abcdefghij", "user", "host", 10);
    assert_eq!(narrow.path, "");
}

#[test]
fn test_render_empty_directory() {
    let content = browser_text(&[], 40);
    assert!(content.contains("Empty directory"), "Expected 'Empty directory' somewhere in the buffer");
}

#[test]
fn test_render_entries_with_types() {
    let rows = browser_rows(&sample_entries(), 60);
    let row = |i: usize| format!("{}{}{}", rows[i].indicator, rows[i].name, rows[i].size);
    assert!(row(0).contains("d ") && row(0).contains("docs"), "Expected directory indicator and name, got: {:?}", row(0));
    assert!(row(1).contains("readme.md"), "Expected file name, got: {:?}", row(1));
    assert!(row(2).contains("@ ") && row(2).contains("link"), "Expected symlink indicator and name, got: {:?}", row(2));
}

#[test]
fn test_render_shows_size() {
    let content = browser_text(&[make_entry("big_file.log", EntryType::File, 2_097_152)], 80);
    assert!(content.contains("2.0 MB"), "Expected size '2.0 MB', got: {:?}", content);
    let row = browser_row(&make_entry("big_file.log", EntryType::File, 2_097_152), 80);
    assert_eq!(row.size, "  2.0 MB");
    assert_eq!(row.name.chars().count(), 80 - 6 - 6);
}

#[test]
fn test_render_scrolling_selected_visible() {
    let entries: Vec<DirectoryEntry> = (0..20)
        .map(|i| make_entry(&format!("file_{:02}.txt", i), EntryType::File, i * 100))
        .collect();
    let rows = browser_rows(&entries, 60);
    assert!(rows[15].name.starts_with("file_15"), "Expected selected entry 'file_15' to be visible");
}

#[test]
fn browser_row_narrow_width_uses_fallback() {
    let row = browser_row(&make_entry("a_rather_long_name.txt", EntryType::File, 5), 4);
    assert_eq!(row.name, "a_rather_l...");
}

#[test]
fn test_render_footer_default_key_bindings() {
    let content = footer_text(None, false);
    assert!(content.contains("q"));
    assert!(content.contains("quit"));
    assert!(content.contains("o"));
    assert!(content.contains("open"));
    assert!(content.contains("c"));
    assert!(content.contains("copy"));
    assert!(content.contains("find"));
    assert!(content.contains("global find"));
    assert!(content.contains("m"));
    assert!(content.contains("navigate"));
    assert!(content.contains("a"));
    assert!(content.contains("toggle hidden"));
}

#[test]
fn footer_key_hints_in_order() {
    assert_eq!(
        footer_text(None, false),
        "q: quit  o: open  c: copy  ^F: find  ^G: global find  m: navigate  a: toggle hidden"
    );
}

#[test]
fn test_render_footer_loading() {
    let content = footer_text(None, true);
    assert!(content.contains("Loading"));
    assert_eq!(content, "⏳ Loading...");
}

fn status(text: &str, level: StatusLevel) -> StatusMessage {
    StatusMessage { text: text.to_string(), level, created_at: Instant::now() }
}

#[test]
fn test_render_footer_status_info() {
    let msg = status("Listing directory...", StatusLevel::Info);
    let content = footer_text(Some(&msg), false);
    assert!(content.contains("Listing directory..."));
    assert!(!content.contains("quit"));
    match footer_view(Some(&msg), false) {
        FooterView::Status { level, .. } => assert_eq!(level, StatusLevel::Info),
        _ => panic!("expected the status"),
    }
}

#[test]
fn test_render_footer_status_success() {
    let msg = status("File copied to ./output.log", StatusLevel::Success);
    let content = footer_text(Some(&msg), false);
    assert!(content.contains("File copied to ./output.log"));
    match footer_view(Some(&msg), false) {
        FooterView::Status { level, .. } => assert_eq!(level, StatusLevel::Success),
        _ => panic!("expected the status"),
    }
}

#[test]
fn test_render_footer_status_error() {
    let msg = status("Permission denied", StatusLevel::Error);
    let content = footer_text(Some(&msg), false);
    assert!(content.contains("Permission denied"));
    match footer_view(Some(&msg), false) {
        FooterView::Status { level, .. } => assert_eq!(level, StatusLevel::Error),
        _ => panic!("expected the status"),
    }
}

#[test]
fn test_render_footer_loading_takes_priority_over_status() {
    let msg = status("Some status", StatusLevel::Info);
    let content = footer_text(Some(&msg), true);
    assert!(content.contains("Loading"));
    assert!(!content.contains("Some status"));
}

#[test]
fn test_render_browsing_mode() {
    let app = App::new("/home/user".to_string(), sample_entries());
    let content = screen_text(&app, "deploy", "192.168.1.1", 80);
    assert!(content.contains("/home/user"));
    assert!(content.contains("deploy@192.168.1.1"));
    assert!(content.contains("docs"));
    assert!(content.contains("readme.md"));
    assert!(content.contains("quit"));
    assert!(matches!(prompt_view(&app), PromptView::Hidden));
}

#[test]
fn test_render_search_results_empty() {
    let mut app = App::new("/home/user".to_string(), sample_entries());
    app.mode = AppMode::SearchResults;
    app.search_state = Some(SearchState {
        search_type: SearchType::Local,
        query: "nonexistent".to_string(),
        results: vec![],
        selected_index: 0,
    });
    let content = screen_text(&app, "deploy", "192.168.1.1", 80);
    assert!(content.contains("No results found for 'nonexistent'"), "Expected no-results message, got: {}", content);
}

#[test]
fn test_render_search_results_with_entries() {
    let mut app = App::new("/home/user".to_string(), sample_entries());
    app.mode = AppMode::SearchResults;
    app.search_state = Some(SearchState {
        search_type: SearchType::Global,
        query: "found".to_string(),
        results: vec![make_entry("found.log", EntryType::File, 2048), make_entry("found_dir", EntryType::Directory, 0)],
        selected_index: 0,
    });
    let content = screen_text(&app, "deploy", "192.168.1.1", 80);
    assert!(content.contains("found.log"));
    assert!(content.contains("found_dir"));
}

#[test]
fn search_results_without_state() {
    let mut app = App::new("/home/user".to_string(), sample_entries());
    app.mode = AppMode::SearchResults;
    match main_view(&app) {
        MainView::NoSearch(t) => assert_eq!(t, "No search results"),
        _ => panic!("expected the no-search message"),
    }
}

#[test]
fn test_render_navigate_prompt_mode() {
    let mut app = App::new("/home/user".to_string(), sample_entries());
    app.mode = AppMode::NavigatePrompt;
    app.navigate_prompt_state = Some(NavigatePromptState { input: "/var/log".to_string() });
    let content = screen_text(&app, "deploy", "192.168.1.1", 80);
    assert!(content.contains("Navigate to:"));
    assert!(content.contains("/var/log"));
}

#[test]
fn test_render_navigate_prompt_empty_input() {
    let mut app = App::new("/".to_string(), vec![]);
    app.start_navigate();
    let content = prompt_of(&app);
    assert!(content.contains("Navigate to: "));
    assert!(content.contains("▌"));
    assert!(content.contains("Go To Path"));
}

#[test]
fn test_render_navigate_prompt_with_input() {
    let mut app = App::new("/".to_string(), vec![]);
    app.start_navigate();
    for c in "/var/log/kafka".chars() {
        app.append_navigate_char(c);
    }
    let content = prompt_of(&app);
    assert!(content.contains("Navigate to: "));
    assert!(content.contains("/var/log/kafka"));
    assert!(content.contains("▌"));
}

#[test]
fn test_render_navigate_prompt_long_path() {
    let long_path = "/home/user/very/deep/nested/directory/structure/path";
    let mut app = App::new("/".to_string(), vec![]);
    app.mode = AppMode::NavigatePrompt;
    app.navigate_prompt_state = Some(NavigatePromptState { input: long_path.to_string() });
    let content = prompt_of(&app);
    assert!(content.contains("Navigate to: "));
    assert!(content.contains("/home/user"));
}

#[test]
fn test_render_path_prompt_mode() {
    let mut app = App::new("/home/user".to_string(), sample_entries());
    app.mode = AppMode::PathPrompt;
    app.path_prompt_state = Some(PathPromptState {
        input: "output.log".to_string(),
        default_name: "output.log".to_string(),
    });
    let content = screen_text(&app, "deploy", "192.168.1.1", 80);
    assert!(content.contains("Copy to:"));
    assert!(content.contains("output.log"));
}

#[test]
fn test_render_path_prompt_with_default_name() {
    let mut app = App::new("/".to_string(), vec![]);
    app.mode = AppMode::PathPrompt;
    app.path_prompt_state = Some(PathPromptState {
        input: "server.log".to_string(),
        default_name: "server.log".to_string(),
    });
    let content = prompt_of(&app);
    assert!(content.contains("Copy to: "));
    assert!(content.contains("server.log"));
    assert!(content.contains("Copy File"));
    assert!(content.contains("█"));
}

#[test]
fn test_render_path_prompt_empty_input() {
    let mut app = App::new("/".to_string(), vec![]);
    app.mode = AppMode::PathPrompt;
    app.path_prompt_state = Some(PathPromptState {
        input: String::new(),
        default_name: "default.txt".to_string(),
    });
    let content = prompt_of(&app);
    assert!(content.contains("Copy to: "));
    assert!(content.contains("█"));
    assert!(content.contains("Copy File"));
}

#[test]
fn copy_prompt_starts_with_default_name() {
    let mut app = App::new("/".to_string(), vec![]);
    app.start_copy_prompt("server.log".to_string());
    match prompt_view(&app) {
        PromptView::CopyInput(t) => assert_eq!(t, "server.log"),
        _ => panic!("expected the copy prompt"),
    }
}

#[test]
fn test_render_overwrite_confirm() {
    let mut app = App::new("/".to_string(), vec![]);
    app.mode = AppMode::OverwriteConfirm { path: "/tmp/output.log".to_string() };
    let content = prompt_of(&app);
    assert!(content.contains("File exists. Overwrite? (y/n):"));
    assert!(content.contains("/tmp/output.log"));
    assert!(content.contains("Copy File"));
}

fn copying(bytes: u64) -> String {
    let mut app = App::new("/".to_string(), vec![]);
    app.mode = AppMode::Copying { bytes_transferred: bytes };
    prompt_of(&app)
}

#[test]
fn test_render_copy_progress_bytes() {
    let content = copying(512);
    assert!(content.contains("Copying..."));
    assert!(content.contains("512 B"));
    assert!(content.contains("transferred"));
    assert!(content.contains("Copy File"));
}

#[test]
fn test_render_copy_progress_kilobytes() {
    let content = copying(1536);
    assert!(content.contains("Copying..."));
    assert!(content.contains("1.5 KB"));
    assert!(content.contains("transferred"));
}

#[test]
fn test_render_copy_progress_zero_bytes() {
    let content = copying(0);
    assert!(content.contains("Copying..."));
    assert!(content.contains("0 B"));
    assert!(content.contains("transferred"));
}

#[test]
fn test_render_dir_copy_confirm() {
    let mut app = App::new("/".to_string(), vec![]);
    app.mode = AppMode::DirectoryCopyConfirm { path: "/remote/data/logs".to_string(), size: 5_242_880 };
    let content = prompt_of(&app);
    assert!(content.contains("/remote/data/logs"), "Expected path in output, got: {}", content);
    assert!(content.contains("5.0 MB"), "Expected formatted size in output, got: {}", content);
    assert!(content.contains("[y] confirm"), "Expected confirm hint in output, got: {}", content);
    assert!(content.contains("[n/Esc] cancel"), "Expected cancel hint in output, got: {}", content);
    assert!(content.contains("Download Directory"), "Expected title in output, got: {}", content);
}

#[test]
fn search_prompt_texts() {
    let mut app = App::new("/".to_string(), vec![]);
    app.start_search(SearchType::Global);
    app.append_search_char('k');
    match prompt_view(&app) {
        PromptView::SearchInput { label, query } => {
            assert_eq!(label, "Find (global): ");
            assert_eq!(query, "k");
        }
        _ => panic!("expected the search prompt"),
    }
    assert_eq!(prompt_of(&app), " Search \nFind (global): k█");
    app.set_searching(SearchType::Local);
    app.update_search_progress(7);
    match prompt_view(&app) {
        PromptView::SearchProgress(t) => assert_eq!(t, "Find (local): Searching... (7 directories traversed)"),
        _ => panic!("expected the search progress"),
    }
}
