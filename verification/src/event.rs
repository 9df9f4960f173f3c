//! Keyboard event handling: which action a key press stands for in each mode.
use vstd::prelude::*;

use crate::app::AppMode;

verus! {

/// The key that was pressed.
#[derive(Debug, Clone, Copy, PartialEq, Eq, Structural)]
pub enum KeyCode {
    Char(char),
    Enter,
    Backspace,
    Esc,
    Up,
    Down,
    Left,
    Right,
    /// Any other key.
    Other,
}

/// A key press: the key, and whether Control was held.
#[derive(Debug, Clone, Copy, PartialEq, Eq, Structural)]
pub struct KeyEvent {
    pub code: KeyCode,
    pub ctrl: bool,
}

/// Represents all possible actions the app can take in response to input.
#[derive(Debug, Clone, Copy, PartialEq, Eq, Structural)]
pub enum Action {
    Quit,
    MoveUp,
    MoveDown,
    Enter,
    GoParent,
    OpenFile,
    CopyFile,
    ToggleHidden,
    StartLocalFind,
    StartGlobalFind,
    StartNavigate,
    ConfirmInput,
    CancelInput,
    CharInput(char),
    Backspace,
    AbortSearch,
    ConfirmOverwrite,
    DenyOverwrite,
    NoAction,
}

/// The action of a key while browsing. Control with `f` or `g` starts a
/// search; the arrows, `j`/`k`, Enter, Backspace and `-` move and open;
/// Left and Right go up and into directories.
pub open spec fn browsing_action(key: KeyEvent) -> Action {
    if key.ctrl {
        match key.code {
            KeyCode::Char('f') => Action::StartLocalFind,
            KeyCode::Char('g') => Action::StartGlobalFind,
            _ => Action::NoAction,
        }
    } else {
        match key.code {
            KeyCode::Down | KeyCode::Char('j') => Action::MoveDown,
            KeyCode::Up | KeyCode::Char('k') => Action::MoveUp,
            KeyCode::Enter | KeyCode::Right => Action::Enter,
            KeyCode::Backspace | KeyCode::Char('-') | KeyCode::Left => Action::GoParent,
            KeyCode::Char('o') => Action::OpenFile,
            KeyCode::Char('c') => Action::CopyFile,
            KeyCode::Char('q') => Action::Quit,
            KeyCode::Char('a') => Action::ToggleHidden,
            KeyCode::Char('m') => Action::StartNavigate,
            _ => Action::NoAction,
        }
    }
}

/// The action of a key in a text prompt.
pub open spec fn text_input_action(key: KeyEvent) -> Action {
    match key.code {
        KeyCode::Esc => Action::CancelInput,
        KeyCode::Enter => Action::ConfirmInput,
        KeyCode::Backspace => Action::Backspace,
        KeyCode::Char(c) => Action::CharInput(c),
        _ => Action::NoAction,
    }
}

/// The action of a key in the search results.
pub open spec fn search_results_action(key: KeyEvent) -> Action {
    match key.code {
        KeyCode::Down | KeyCode::Char('j') => Action::MoveDown,
        KeyCode::Up | KeyCode::Char('k') => Action::MoveUp,
        KeyCode::Enter => Action::Enter,
        KeyCode::Esc => Action::CancelInput,
        _ => Action::NoAction,
    }
}

/// The action of a key in a yes/no confirmation.
pub open spec fn confirm_action(key: KeyEvent) -> Action {
    match key.code {
        KeyCode::Char('y') => Action::ConfirmOverwrite,
        KeyCode::Char('n') | KeyCode::Esc => Action::DenyOverwrite,
        _ => Action::NoAction,
    }
}

/// The action of a key while a search runs.
pub open spec fn searching_action(key: KeyEvent) -> Action {
    match key.code {
        KeyCode::Esc => Action::AbortSearch,
        _ => Action::NoAction,
    }
}

/// The action that `key` stands for in `mode`.
pub open spec fn key_action(key: KeyEvent, mode: AppMode) -> Action {
    match mode {
        AppMode::Browsing => browsing_action(key),
        AppMode::SearchPrompt { .. } => text_input_action(key),
        AppMode::SearchResults => search_results_action(key),
        AppMode::PathPrompt => text_input_action(key),
        AppMode::OverwriteConfirm { .. } => confirm_action(key),
        AppMode::DirectoryCopyConfirm { .. } => confirm_action(key),
        AppMode::NavigatePrompt => text_input_action(key),
        AppMode::Searching { .. } => searching_action(key),
        AppMode::Copying { .. } => Action::NoAction,
    }
}

/// Map a key event to an Action based on the current application mode.
pub fn handle_key_event(key: KeyEvent, mode: &AppMode) -> (r: Action)
    ensures
        r == key_action(key, *mode),
{
    match mode {
        AppMode::Browsing => handle_browsing(key),
        AppMode::SearchPrompt { .. } => handle_text_input(key),
        AppMode::SearchResults => handle_search_results(key),
        AppMode::PathPrompt => handle_text_input(key),
        AppMode::OverwriteConfirm { .. } => handle_confirm(key),
        AppMode::DirectoryCopyConfirm { .. } => handle_confirm(key),
        AppMode::NavigatePrompt => handle_text_input(key),
        AppMode::Searching { .. } => handle_searching(key),
        AppMode::Copying { .. } => Action::NoAction,
    }
}

fn handle_browsing(key: KeyEvent) -> (r: Action)
    ensures
        r == browsing_action(key),
{
    // Check for Ctrl-modified keys first
    if key.ctrl {
        return match key.code {
            KeyCode::Char('f') => Action::StartLocalFind,
            KeyCode::Char('g') => Action::StartGlobalFind,
            _ => Action::NoAction,
        };
    }
    match key.code {
        KeyCode::Down | KeyCode::Char('j') => Action::MoveDown,
        KeyCode::Up | KeyCode::Char('k') => Action::MoveUp,
        KeyCode::Enter | KeyCode::Right => Action::Enter,
        KeyCode::Backspace | KeyCode::Char('-') | KeyCode::Left => Action::GoParent,
        KeyCode::Char('o') => Action::OpenFile,
        KeyCode::Char('c') => Action::CopyFile,
        KeyCode::Char('q') => Action::Quit,
        KeyCode::Char('a') => Action::ToggleHidden,
        KeyCode::Char('m') => Action::StartNavigate,
        _ => Action::NoAction,
    }
}

fn handle_text_input(key: KeyEvent) -> (r: Action)
    ensures
        r == text_input_action(key),
{
    match key.code {
        KeyCode::Esc => Action::CancelInput,
        KeyCode::Enter => Action::ConfirmInput,
        KeyCode::Backspace => Action::Backspace,
        KeyCode::Char(c) => Action::CharInput(c),
        _ => Action::NoAction,
    }
}

fn handle_search_results(key: KeyEvent) -> (r: Action)
    ensures
        r == search_results_action(key),
{
    match key.code {
        KeyCode::Down | KeyCode::Char('j') => Action::MoveDown,
        KeyCode::Up | KeyCode::Char('k') => Action::MoveUp,
        KeyCode::Enter => Action::Enter,
        KeyCode::Esc => Action::CancelInput,
        _ => Action::NoAction,
    }
}

fn handle_confirm(key: KeyEvent) -> (r: Action)
    ensures
        r == confirm_action(key),
{
    match key.code {
        KeyCode::Char('y') => Action::ConfirmOverwrite,
        KeyCode::Char('n') | KeyCode::Esc => Action::DenyOverwrite,
        _ => Action::NoAction,
    }
}

fn handle_searching(key: KeyEvent) -> (r: Action)
    ensures
        r == searching_action(key),
{
    match key.code {
        KeyCode::Esc => Action::AbortSearch,
        _ => Action::NoAction,
    }
}

} // verus!
