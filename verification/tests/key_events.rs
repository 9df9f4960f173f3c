use kafka_term::app::{AppMode, SearchType};
use kafka_term::event::{handle_key_event, Action, KeyCode, KeyEvent};

fn key(code: KeyCode) -> KeyEvent {
    KeyEvent { code, ctrl: false }
}

fn key_ctrl(code: KeyCode) -> KeyEvent {
    KeyEvent { code, ctrl: true }
}

// --- Browsing mode tests ---

#[test]
fn browsing_arrow_down() {
    assert_eq!(handle_key_event(key(KeyCode::Down), &AppMode::Browsing), Action::MoveDown);
}

#[test]
fn browsing_j_down() {
    assert_eq!(handle_key_event(key(KeyCode::Char('j')), &AppMode::Browsing), Action::MoveDown);
}

#[test]
fn browsing_arrow_up() {
    assert_eq!(handle_key_event(key(KeyCode::Up), &AppMode::Browsing), Action::MoveUp);
}

#[test]
fn browsing_k_up() {
    assert_eq!(handle_key_event(key(KeyCode::Char('k')), &AppMode::Browsing), Action::MoveUp);
}

#[test]
fn browsing_enter() {
    assert_eq!(handle_key_event(key(KeyCode::Enter), &AppMode::Browsing), Action::Enter);
}

#[test]
fn browsing_backspace_parent() {
    assert_eq!(handle_key_event(key(KeyCode::Backspace), &AppMode::Browsing), Action::GoParent);
}

#[test]
fn browsing_dash_parent() {
    assert_eq!(handle_key_event(key(KeyCode::Char('-')), &AppMode::Browsing), Action::GoParent);
}

#[test]
fn browsing_o_open_file() {
    assert_eq!(handle_key_event(key(KeyCode::Char('o')), &AppMode::Browsing), Action::OpenFile);
}

#[test]
fn browsing_c_copy_file() {
    assert_eq!(handle_key_event(key(KeyCode::Char('c')), &AppMode::Browsing), Action::CopyFile);
}

#[test]
fn browsing_q_quit() {
    assert_eq!(handle_key_event(key(KeyCode::Char('q')), &AppMode::Browsing), Action::Quit);
}

#[test]
fn browsing_a_toggle_hidden() {
    assert_eq!(handle_key_event(key(KeyCode::Char('a')), &AppMode::Browsing), Action::ToggleHidden);
}

#[test]
fn browsing_ctrl_f_local_find() {
    assert_eq!(handle_key_event(key_ctrl(KeyCode::Char('f')), &AppMode::Browsing), Action::StartLocalFind);
}

#[test]
fn browsing_ctrl_g_global_find() {
    assert_eq!(handle_key_event(key_ctrl(KeyCode::Char('g')), &AppMode::Browsing), Action::StartGlobalFind);
}

#[test]
fn browsing_m_navigate() {
    assert_eq!(handle_key_event(key(KeyCode::Char('m')), &AppMode::Browsing), Action::StartNavigate);
}

#[test]
fn browsing_unknown_key_none() {
    assert_eq!(handle_key_event(key(KeyCode::Char('z')), &AppMode::Browsing), Action::NoAction);
}

// --- SearchPrompt mode tests ---

#[test]
fn search_prompt_escape() {
    let mode = AppMode::SearchPrompt { search_type: SearchType::Local };
    assert_eq!(handle_key_event(key(KeyCode::Esc), &mode), Action::CancelInput);
}

#[test]
fn search_prompt_enter() {
    let mode = AppMode::SearchPrompt { search_type: SearchType::Local };
    assert_eq!(handle_key_event(key(KeyCode::Enter), &mode), Action::ConfirmInput);
}

#[test]
fn search_prompt_backspace() {
    let mode = AppMode::SearchPrompt { search_type: SearchType::Global };
    assert_eq!(handle_key_event(key(KeyCode::Backspace), &mode), Action::Backspace);
}

#[test]
fn search_prompt_char_input() {
    let mode = AppMode::SearchPrompt { search_type: SearchType::Local };
    assert_eq!(handle_key_event(key(KeyCode::Char('x')), &mode), Action::CharInput('x'));
}

// --- SearchResults mode tests ---

#[test]
fn search_results_down() {
    assert_eq!(handle_key_event(key(KeyCode::Down), &AppMode::SearchResults), Action::MoveDown);
}

#[test]
fn search_results_j_down() {
    assert_eq!(handle_key_event(key(KeyCode::Char('j')), &AppMode::SearchResults), Action::MoveDown);
}

#[test]
fn search_results_up() {
    assert_eq!(handle_key_event(key(KeyCode::Up), &AppMode::SearchResults), Action::MoveUp);
}

#[test]
fn search_results_k_up() {
    assert_eq!(handle_key_event(key(KeyCode::Char('k')), &AppMode::SearchResults), Action::MoveUp);
}

#[test]
fn search_results_enter() {
    assert_eq!(handle_key_event(key(KeyCode::Enter), &AppMode::SearchResults), Action::Enter);
}

#[test]
fn search_results_escape() {
    assert_eq!(handle_key_event(key(KeyCode::Esc), &AppMode::SearchResults), Action::CancelInput);
}

// --- PathPrompt mode tests ---

#[test]
fn path_prompt_escape() {
    assert_eq!(handle_key_event(key(KeyCode::Esc), &AppMode::PathPrompt), Action::CancelInput);
}

#[test]
fn path_prompt_enter() {
    assert_eq!(handle_key_event(key(KeyCode::Enter), &AppMode::PathPrompt), Action::ConfirmInput);
}

#[test]
fn path_prompt_backspace() {
    assert_eq!(handle_key_event(key(KeyCode::Backspace), &AppMode::PathPrompt), Action::Backspace);
}

#[test]
fn path_prompt_char() {
    assert_eq!(handle_key_event(key(KeyCode::Char('/')), &AppMode::PathPrompt), Action::CharInput('/'));
}

// --- OverwriteConfirm mode tests ---

#[test]
fn overwrite_y_confirm() {
    let mode = AppMode::OverwriteConfirm { path: "/tmp/file".to_string() };
    assert_eq!(handle_key_event(key(KeyCode::Char('y')), &mode), Action::ConfirmOverwrite);
}

#[test]
fn overwrite_n_deny() {
    let mode = AppMode::OverwriteConfirm { path: "/tmp/file".to_string() };
    assert_eq!(handle_key_event(key(KeyCode::Char('n')), &mode), Action::DenyOverwrite);
}

#[test]
fn overwrite_escape_deny() {
    let mode = AppMode::OverwriteConfirm { path: "/tmp/file".to_string() };
    assert_eq!(handle_key_event(key(KeyCode::Esc), &mode), Action::DenyOverwrite);
}

#[test]
fn overwrite_other_none() {
    let mode = AppMode::OverwriteConfirm { path: "/tmp/file".to_string() };
    assert_eq!(handle_key_event(key(KeyCode::Char('x')), &mode), Action::NoAction);
}

// --- NavigatePrompt mode tests ---

#[test]
fn navigate_prompt_escape() {
    assert_eq!(handle_key_event(key(KeyCode::Esc), &AppMode::NavigatePrompt), Action::CancelInput);
}

#[test]
fn navigate_prompt_enter() {
    assert_eq!(handle_key_event(key(KeyCode::Enter), &AppMode::NavigatePrompt), Action::ConfirmInput);
}

#[test]
fn navigate_prompt_backspace() {
    assert_eq!(handle_key_event(key(KeyCode::Backspace), &AppMode::NavigatePrompt), Action::Backspace);
}

#[test]
fn navigate_prompt_char() {
    assert_eq!(handle_key_event(key(KeyCode::Char('a')), &AppMode::NavigatePrompt), Action::CharInput('a'));
}

// --- Searching mode tests ---

#[test]
fn searching_escape_abort() {
    let mode = AppMode::Searching { search_type: SearchType::Local, progress: 0 };
    assert_eq!(handle_key_event(key(KeyCode::Esc), &mode), Action::AbortSearch);
}

#[test]
fn searching_other_none() {
    let mode = AppMode::Searching { search_type: SearchType::Global, progress: 5 };
    assert_eq!(handle_key_event(key(KeyCode::Char('x')), &mode), Action::NoAction);
}

// --- Copying mode tests ---

#[test]
fn copying_ignores_all_keys() {
    let mode = AppMode::Copying { bytes_transferred: 100 };
    assert_eq!(handle_key_event(key(KeyCode::Char('q')), &mode), Action::NoAction);
    assert_eq!(handle_key_event(key(KeyCode::Esc), &mode), Action::NoAction);
    assert_eq!(handle_key_event(key(KeyCode::Enter), &mode), Action::NoAction);
}

#[test]
fn browsing_left_goes_to_parent() {
    assert_eq!(handle_key_event(key(KeyCode::Left), &AppMode::Browsing), Action::GoParent);
}

#[test]
fn browsing_right_enters() {
    assert_eq!(handle_key_event(key(KeyCode::Right), &AppMode::Browsing), Action::Enter);
}

#[test]
fn directory_confirm_uses_confirm_keys() {
    let mode = AppMode::DirectoryCopyConfirm { path: "/var/log".to_string(), size: 10 };
    assert_eq!(handle_key_event(key(KeyCode::Char('y')), &mode), Action::ConfirmOverwrite);
    assert_eq!(handle_key_event(key(KeyCode::Char('n')), &mode), Action::DenyOverwrite);
    assert_eq!(handle_key_event(key(KeyCode::Esc), &mode), Action::DenyOverwrite);
    assert_eq!(handle_key_event(key(KeyCode::Char('q')), &mode), Action::NoAction);
}

#[test]
fn browsing_ctrl_other_none() {
    assert_eq!(handle_key_event(key_ctrl(KeyCode::Char('q')), &AppMode::Browsing), Action::NoAction);
}
