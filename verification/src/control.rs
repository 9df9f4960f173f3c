//! The decisions of the event loop: what each action does to the state and
//! which I/O it asks for, and what the state becomes once that I/O is done.
//! The I/O itself (listing over SSH, downloads, searches, local checks) is
//! performed by the caller, who hands back an `Outcome`.
use std::time::Instant;
use vstd::prelude::*;

use crate::app::{App, AppMode, SearchType, first_named};
use crate::download::DirCopyResult;
use crate::event::Action;
use crate::navigate::{validate_absolute_path, is_absolute_input, NavigateTarget};
use crate::listing::parent_path;
use crate::paths::parent_text;
use crate::text::{chars_of, chars_equal, copy_string, push_decimal, push_str, decimal};
use crate::types::{format_size, size_text, DirectoryEntry, EntryType, StatusLevel, StatusMessage};

verus! {

broadcast use vstd::string::group_string_axioms;

/// `Instant::now`: the current time. Nothing is stated of it.
#[verifier::external_body]
fn now() -> Instant {
    Instant::now()
}

/// The message that ends the session when the SSH connection is gone.
pub open spec fn connection_lost_text() -> Seq<char> {
    "SSH connection lost"@
}

/// Whether the event loop may go on, given whether the SSH session is still
/// authenticated: on when it is, else stop with the connection-lost
/// message.
pub fn connection_check(connected: bool) -> (r: Result<(), String>)
    ensures
        r is Ok <==> connected,
        r matches Err(m) ==> m@ == connection_lost_text(),
{
    if connected {
        Ok(())
    } else {
        let mut m = String::new();
        push_str(&mut m, "SSH connection lost");
        Err(m)
    }
}

/// A status message reporting an error, timestamped now.
pub fn error_status(msg: String) -> (r: StatusMessage)
    ensures
        r.text == msg,
        r.level == StatusLevel::Error,
{
    StatusMessage { text: msg, level: StatusLevel::Error, created_at: now() }
}

/// A status message reporting success, timestamped now.
pub fn success_status(msg: String) -> (r: StatusMessage)
    ensures
        r.text == msg,
        r.level == StatusLevel::Success,
{
    StatusMessage { text: msg, level: StatusLevel::Success, created_at: now() }
}

/// What a directory listing is for, which decides what happens once it
/// arrives.
#[derive(Debug, Clone, PartialEq, Eq)]
pub enum ListPurpose {
    /// Entering the selected directory.
    EnterDirectory,
    /// Going up to the parent directory.
    GoParent,
    /// Listing the current directory again (hidden entries toggled).
    Refresh,
    /// Opening a search result, selecting this name if given.
    SearchSelection(Option<String>),
    /// Going to a directory typed in the navigate prompt.
    NavigateDirectory,
    /// Going to the parent of a file typed in the navigate prompt, selecting
    /// that file.
    NavigateFile(String),
}

/// The I/O that the caller must perform next.
#[derive(Debug, Clone, PartialEq, Eq)]
pub enum Request {
    /// Nothing to do.
    Idle,
    /// Leave the program.
    Quit,
    /// List `path` (hidden entries shown when `show_hidden`), sorted.
    ListDirectory { path: String, show_hidden: bool, purpose: ListPurpose },
    /// Open the remote file in the local viewer.
    ViewFile { remote: String },
    /// Measure the total size of a remote directory.
    MeasureDirectory { remote: String },
    /// Search the names in `dir`.
    LocalFind { dir: String, query: String, show_hidden: bool },
    /// Search everything below `dir`.
    GlobalFind { dir: String, query: String, show_hidden: bool },
    /// Resolve the typed destination against the working directory, check
    /// its parent, and whether it exists.
    CheckDestination { input: String },
    /// Download a remote file to a local path.
    CopyFile { remote: String, local: String },
    /// Download a remote directory to a local path, first removing what is
    /// there when `replace_existing`.
    CopyDirectory { remote: String, local: String, replace_existing: bool },
    /// Find out whether the typed path is a directory.
    ResolveNavigate { path: String },
}

/// What performing a request gave.
#[derive(Debug)]
pub enum Outcome {
    Listed(Result<Vec<DirectoryEntry>, String>),
    Viewed(Result<(), String>),
    Measured(Result<u64, String>),
    Found(Result<Vec<DirectoryEntry>, String>),
    /// The destination as resolved, and whether it exists (or why it cannot
    /// be used).
    DestinationChecked { local: String, check: Result<bool, String> },
    FileCopied(Result<u64, String>),
    DirectoryCopied(Result<DirCopyResult, String>),
    NavigateResolved(Result<NavigateTarget, String>),
}

/// `b` is `a` with a status message of level `level` and text `text`.
pub open spec fn status_set(a: App, b: App, text: Seq<char>, level: StatusLevel) -> bool {
    &&& b == a.with_status(b.status_message)
    &&& b.status_message matches Some(m) && m.text@ == text && m.level == level
}

/// The message shown when a typed navigation path is not absolute.
pub open spec fn not_absolute_text() -> Seq<char> {
    "Path must be absolute (start with '/')"@
}

/// The message shown after a file copy.
pub open spec fn copied_text(bytes: u64, local: Seq<char>) -> Seq<char> {
    "Copied "@ + size_text(bytes) + " to "@ + local
}

/// The message shown after a directory copy.
pub open spec fn dir_copied_text(files: usize, bytes: u64, local: Seq<char>, failed: nat) -> Seq<char> {
    "Copied "@ + decimal(files as nat) + " files ("@ + size_text(bytes) + ") to "@ + local + (if failed
        == 0 {
        Seq::empty()
    } else {
        "; "@ + decimal(failed) + " failed"@
    })
}

/// A request and the text of its parameters.
pub open spec fn is_list_request(r: Request, path: Seq<char>, show_hidden: bool, purpose: ListPurpose) -> bool {
    r matches Request::ListDirectory { path: p, show_hidden: h, purpose: q } && p@ == path && h
        == show_hidden && q == purpose
}

impl App {
    /// What `action` does in this state: `b` is the state after it and `r`
    /// the I/O it asks for.
    pub open spec fn action_effect(self, action: Action, b: App, r: Request) -> bool {
        match action {
            Action::Quit => b == self && r is Quit,
            Action::MoveDown => r is Idle && b == (if self.mode is SearchResults {
                self.search_cursor_down()
            } else {
                self.cursor_down()
            }),
            Action::MoveUp => r is Idle && b == (if self.mode is SearchResults {
                self.search_cursor_up()
            } else {
                self.cursor_up()
            }),
            Action::Enter => b == self && match self.mode {
                AppMode::Browsing => match self.spec_selected_entry() {
                    Some(e) => if e.entry_type == EntryType::Directory {
                        is_list_request(r, e.path@, self.show_hidden, ListPurpose::EnterDirectory)
                    } else {
                        r is Idle
                    },
                    None => r is Idle,
                },
                AppMode::SearchResults => match self.search_navigation() {
                    Some((target, select)) => r matches Request::ListDirectory {
                        path,
                        show_hidden,
                        purpose: ListPurpose::SearchSelection(sel),
                    } && path@ == target && show_hidden == self.show_hidden && match sel {
                        Some(f) => select == Some(f@),
                        None => select is None,
                    },
                    None => r is Idle,
                },
                _ => r is Idle,
            },
            Action::GoParent => b == self && if parent_text(self.current_path@)
                != self.current_path@ {
                is_list_request(
                    r,
                    parent_text(self.current_path@),
                    self.show_hidden,
                    ListPurpose::GoParent,
                )
            } else {
                r is Idle
            },
            Action::ToggleHidden => b == (App { show_hidden: !self.show_hidden, ..self })
                && is_list_request(r, self.current_path@, !self.show_hidden, ListPurpose::Refresh),
            Action::OpenFile => b == self && match self.spec_selected_entry() {
                Some(e) => if e.entry_type != EntryType::Directory {
                    r matches Request::ViewFile { remote } && remote@ == e.path@
                } else {
                    r is Idle
                },
                None => r is Idle,
            },
            Action::CopyFile => match self.spec_selected_entry() {
                Some(e) => if e.entry_type != EntryType::Directory {
                    r is Idle && self.copy_prompt_started(b, e.name)
                } else {
                    b == self && (r matches Request::MeasureDirectory { remote } && remote@
                        == e.path@)
                },
                None => b == self && r is Idle,
            },
            Action::StartLocalFind => r is Idle && self.search_started(b, SearchType::Local),
            Action::StartGlobalFind => r is Idle && self.search_started(b, SearchType::Global),
            Action::StartNavigate => r is Idle && self.navigate_started(b),
            Action::CharInput(c) => r is Idle && match self.mode {
                AppMode::SearchPrompt { .. } => self.search_char_added(b, c),
                AppMode::PathPrompt => self.path_char_added(b, c),
                AppMode::NavigatePrompt => self.navigate_char_added(b, c),
                _ => b == self,
            },
            Action::Backspace => r is Idle && match self.mode {
                AppMode::SearchPrompt { .. } => self.search_char_removed(b),
                AppMode::PathPrompt => self.path_char_removed(b),
                AppMode::NavigatePrompt => self.navigate_char_removed(b),
                _ => b == self,
            },
            Action::ConfirmInput => match self.mode {
                AppMode::SearchPrompt { search_type } => {
                    let q = match self.search_state {
                        Some(st) => st.query@,
                        None => Seq::empty(),
                    };
                    if q.len() == 0 {
                        r is Idle && b == self.search_cancelled()
                    } else {
                        b == self.with_mode(AppMode::Searching { search_type, progress: 0 })
                            && match search_type {
                            SearchType::Local => r matches Request::LocalFind {
                                dir,
                                query,
                                show_hidden,
                            } && dir@ == self.current_path@ && query@ == q && show_hidden
                                == self.show_hidden,
                            SearchType::Global => r matches Request::GlobalFind {
                                dir,
                                query,
                                show_hidden,
                            } && dir@ == self.current_path@ && query@ == q && show_hidden
                                == self.show_hidden,
                        }
                    }
                },
                AppMode::PathPrompt => {
                    let q = match self.path_prompt_state {
                        Some(p) => p.input@,
                        None => Seq::empty(),
                    };
                    if q.len() == 0 {
                        r is Idle && b == self.path_prompt_cancelled()
                    } else {
                        b == self && (r matches Request::CheckDestination { input } && input@ == q)
                    }
                },
                AppMode::NavigatePrompt => {
                    let q = match self.navigate_prompt_state {
                        Some(p) => p.input@,
                        None => Seq::empty(),
                    };
                    if q.len() == 0 {
                        r is Idle && b == self.navigate_cancelled()
                    } else if !is_absolute_input(q) {
                        r is Idle && status_set(
                            self.navigate_cancelled(),
                            b,
                            not_absolute_text(),
                            StatusLevel::Error,
                        )
                    } else {
                        b == self && (r matches Request::ResolveNavigate { path } && path@ == q)
                    }
                },
                _ => b == self && r is Idle,
            },
            Action::CancelInput => r is Idle && b == match self.mode {
                AppMode::SearchPrompt { .. } => self.search_cancelled(),
                AppMode::SearchResults => self.search_cancelled(),
                AppMode::PathPrompt => self.path_prompt_cancelled(),
                AppMode::NavigatePrompt => self.navigate_cancelled(),
                _ => self,
            },
            Action::AbortSearch => r is Idle && b == self.search_cancelled(),
            Action::ConfirmOverwrite => match self.mode {
                AppMode::OverwriteConfirm { path } => b == self.path_prompt_cancelled() && match self.spec_selected_entry() {
                    Some(e) => if e.entry_type == EntryType::Directory {
                        r matches Request::CopyDirectory { remote, local, replace_existing }
                            && remote@ == e.path@ && local@ == path@ && replace_existing
                    } else {
                        r matches Request::CopyFile { remote, local } && remote@ == e.path@
                            && local@ == path@
                    },
                    None => r is Idle,
                },
                AppMode::DirectoryCopyConfirm { .. } => r is Idle && match self.spec_selected_entry() {
                    Some(e) => self.copy_prompt_started(b, e.name),
                    None => b == self.with_mode(AppMode::Browsing),
                },
                _ => b == self && r is Idle,
            },
            Action::DenyOverwrite => r is Idle && b == self.path_prompt_cancelled(),
            Action::NoAction => b == self && r is Idle,
        }
    }
}



/// The cursor for `name` in `entries`: its first position, or 0.
pub open spec fn cursor_for(entries: Seq<DirectoryEntry>, name: Seq<char>) -> usize {
    match first_named(entries, name) {
        Some(k) => k as usize,
        None => 0,
    }
}

impl App {
    /// The state once a listing of `path` made for `purpose` has arrived.
    pub open spec fn listed_state(self, path: String, entries: Vec<DirectoryEntry>, purpose: ListPurpose) -> App {
        let moved = App { current_path: path, entries, selected_index: 0, ..self };
        match purpose {
            ListPurpose::Refresh => App { entries, selected_index: 0, ..self },
            ListPurpose::SearchSelection(sel) => match sel {
                Some(f) => moved.with_cursor(cursor_for(entries@, f@)),
                None => moved,
            }.search_cancelled(),
            ListPurpose::NavigateFile(f) => moved.with_cursor(cursor_for(entries@, f@)),
            _ => moved,
        }
    }

    /// What completing `req` with `out` does: `b` is the state after it and
    /// `r` the I/O that follows. An outcome that does not answer the
    /// request changes nothing.
    pub open spec fn completion_effect(self, req: Request, out: Outcome, b: App, r: Request) -> bool {
        match req {
            Request::ListDirectory { path, show_hidden: _, purpose } => match out {
                Outcome::Listed(res) => r is Idle && match res {
                    Ok(entries) => b == self.listed_state(path, entries, purpose),
                    Err(msg) => status_set(self, b, msg@, StatusLevel::Error),
                },
                _ => b == self && r is Idle,
            },
            Request::ViewFile { .. } => match out {
                Outcome::Viewed(res) => r is Idle && match res {
                    Ok(_) => b == self,
                    Err(msg) => status_set(self, b, msg@, StatusLevel::Error),
                },
                _ => b == self && r is Idle,
            },
            Request::MeasureDirectory { remote } => match out {
                Outcome::Measured(res) => r is Idle && match res {
                    Ok(size) => b == self.with_mode(AppMode::DirectoryCopyConfirm { path: remote, size }),
                    Err(msg) => status_set(self, b, msg@, StatusLevel::Error),
                },
                _ => b == self && r is Idle,
            },
            Request::LocalFind { .. } | Request::GlobalFind { .. } => match out {
                Outcome::Found(res) => r is Idle && match res {
                    Ok(results) => b == self.results_shown(results),
                    Err(msg) => status_set(self.search_cancelled(), b, msg@, StatusLevel::Error),
                },
                _ => b == self && r is Idle,
            },
            Request::CheckDestination { .. } => match out {
                Outcome::DestinationChecked { local, check } => match check {
                    Err(msg) => r is Idle && status_set(
                        self.path_prompt_cancelled(),
                        b,
                        msg@,
                        StatusLevel::Error,
                    ),
                    Ok(exists) => if exists {
                        r is Idle && b == self.with_mode(AppMode::OverwriteConfirm { path: local })
                    } else {
                        b == self.path_prompt_cancelled() && match self.spec_selected_entry() {
                            Some(e) => if e.entry_type == EntryType::Directory {
                                r matches Request::CopyDirectory { remote, local: l, replace_existing }
                                    && remote@ == e.path@ && l@ == local@ && !replace_existing
                            } else {
                                r matches Request::CopyFile { remote, local: l } && remote@
                                    == e.path@ && l@ == local@
                            },
                            None => r is Idle,
                        }
                    },
                },
                _ => b == self && r is Idle,
            },
            Request::CopyFile { remote: _, local } => match out {
                Outcome::FileCopied(res) => r is Idle && match res {
                    Ok(bytes) => status_set(self, b, copied_text(bytes, local@), StatusLevel::Success),
                    Err(msg) => status_set(self, b, msg@, StatusLevel::Error),
                },
                _ => b == self && r is Idle,
            },
            Request::CopyDirectory { remote: _, local, replace_existing: _ } => match out {
                Outcome::DirectoryCopied(res) => r is Idle && match res {
                    Ok(d) => status_set(
                        self,
                        b,
                        dir_copied_text(d.files_copied, d.bytes_transferred, local@, d.failures@.len()),
                        if d.failures@.len() == 0 {
                            StatusLevel::Success
                        } else {
                            StatusLevel::Error
                        },
                    ),
                    Err(msg) => status_set(self, b, msg@, StatusLevel::Error),
                },
                _ => b == self && r is Idle,
            },
            Request::ResolveNavigate { .. } => match out {
                Outcome::NavigateResolved(res) => match res {
                    Ok(NavigateTarget::Directory(d)) => b == self.navigate_cancelled()
                        && is_list_request(r, d@, self.show_hidden, ListPurpose::NavigateDirectory),
                    Ok(NavigateTarget::File { parent, filename }) => b == self.navigate_cancelled()
                        && is_list_request(
                        r,
                        parent@,
                        self.show_hidden,
                        ListPurpose::NavigateFile(filename),
                    ),
                    Err(msg) => r is Idle && status_set(
                        self.navigate_cancelled(),
                        b,
                        msg@,
                        StatusLevel::Error,
                    ),
                },
                _ => b == self && r is Idle,
            },
            _ => b == self && r is Idle,
        }
    }
}

impl App {
    /// Carry out `action`: change the state as it says, and return the I/O
    /// that it needs, if any.
    pub fn handle_action(&mut self, action: Action) -> (r: Request)
        ensures
            old(self).action_effect(action, *final(self), r),
    {
        match action {
            Action::Quit => Request::Quit,
            Action::MoveDown => {
                if matches!(self.mode, AppMode::SearchResults) {
                    self.move_search_cursor_down();
                } else {
                    self.move_cursor_down();
                }
                Request::Idle
            },
            Action::MoveUp => {
                if matches!(self.mode, AppMode::SearchResults) {
                    self.move_search_cursor_up();
                } else {
                    self.move_cursor_up();
                }
                Request::Idle
            },
            Action::Enter => self.enter_request(),
            Action::GoParent => {
                let parent = parent_path(self.current_path.as_str());
                if !crate::text::strings_equal(parent.as_str(), self.current_path.as_str()) {
                    Request::ListDirectory {
                        path: parent,
                        show_hidden: self.show_hidden,
                        purpose: ListPurpose::GoParent,
                    }
                } else {
                    Request::Idle
                }
            },
            Action::ToggleHidden => {
                self.show_hidden = !self.show_hidden;
                Request::ListDirectory {
                    path: copy_string(&self.current_path),
                    show_hidden: self.show_hidden,
                    purpose: ListPurpose::Refresh,
                }
            },
            Action::OpenFile => match self.selected_entry() {
                Some(e) => if e.entry_type != EntryType::Directory {
                    Request::ViewFile { remote: copy_string(&e.path) }
                } else {
                    Request::Idle
                },
                None => Request::Idle,
            },
            Action::CopyFile => {
                let chosen = match self.selected_entry() {
                    Some(e) => Some((e.entry_type == EntryType::Directory, copy_string(&e.name), copy_string(&e.path))),
                    None => None,
                };
                match chosen {
                    Some((is_dir, name, path)) => if is_dir {
                        Request::MeasureDirectory { remote: path }
                    } else {
                        self.start_copy_prompt(name);
                        Request::Idle
                    },
                    None => Request::Idle,
                }
            },
            Action::StartLocalFind => {
                self.start_search(SearchType::Local);
                Request::Idle
            },
            Action::StartGlobalFind => {
                self.start_search(SearchType::Global);
                Request::Idle
            },
            Action::StartNavigate => {
                self.start_navigate();
                Request::Idle
            },
            Action::CharInput(c) => {
                match self.mode {
                    AppMode::SearchPrompt { .. } => self.append_search_char(c),
                    AppMode::PathPrompt => self.append_path_char(c),
                    AppMode::NavigatePrompt => self.append_navigate_char(c),
                    _ => {},
                }
                Request::Idle
            },
            Action::Backspace => {
                match self.mode {
                    AppMode::SearchPrompt { .. } => self.delete_search_char(),
                    AppMode::PathPrompt => self.delete_path_char(),
                    AppMode::NavigatePrompt => self.delete_navigate_char(),
                    _ => {},
                }
                Request::Idle
            },
            Action::ConfirmInput => self.confirm_request(),
            Action::CancelInput => {
                match self.mode {
                    AppMode::SearchPrompt { .. } => self.cancel_search(),
                    AppMode::SearchResults => self.cancel_search(),
                    AppMode::PathPrompt => self.cancel_path_prompt(),
                    AppMode::NavigatePrompt => self.cancel_navigate(),
                    _ => {},
                }
                Request::Idle
            },
            Action::AbortSearch => {
                self.cancel_search();
                Request::Idle
            },
            Action::ConfirmOverwrite => self.confirm_overwrite_request(),
            Action::DenyOverwrite => {
                self.cancel_path_prompt();
                Request::Idle
            },
            Action::NoAction => Request::Idle,
        }
    }

    /// The request of `Enter`: open the selected directory, or the selected
    /// search result.
    fn enter_request(&self) -> (r: Request)
        ensures
            self.action_effect(Action::Enter, *self, r),
    {
        match self.mode {
            AppMode::Browsing => match self.selected_entry() {
                Some(e) => if e.entry_type == EntryType::Directory {
                    Request::ListDirectory {
                        path: copy_string(&e.path),
                        show_hidden: self.show_hidden,
                        purpose: ListPurpose::EnterDirectory,
                    }
                } else {
                    Request::Idle
                },
                None => Request::Idle,
            },
            AppMode::SearchResults => match self.resolve_search_selection() {
                Some(nav) => Request::ListDirectory {
                    path: nav.target_path,
                    show_hidden: self.show_hidden,
                    purpose: ListPurpose::SearchSelection(nav.select_filename),
                },
                None => Request::Idle,
            },
            _ => Request::Idle,
        }
    }

    /// The effect of confirming the text of a prompt.
    fn confirm_request(&mut self) -> (r: Request)
        ensures
            old(self).action_effect(Action::ConfirmInput, *final(self), r),
    {
        match self.mode {
            AppMode::SearchPrompt { search_type } => {
                let query = match self.search_query() {
                    Some(q) => q.to_owned(),
                    None => String::new(),
                };
                if query.as_str().is_empty() {
                    self.cancel_search();
                    Request::Idle
                } else {
                    let dir = copy_string(&self.current_path);
                    self.set_searching(search_type);
                    match search_type {
                        SearchType::Local => Request::LocalFind {
                            dir,
                            query,
                            show_hidden: self.show_hidden,
                        },
                        SearchType::Global => Request::GlobalFind {
                            dir,
                            query,
                            show_hidden: self.show_hidden,
                        },
                    }
                }
            },
            AppMode::PathPrompt => {
                let input = match self.get_path_input() {
                    Some(q) => q.to_owned(),
                    None => String::new(),
                };
                if input.as_str().is_empty() {
                    self.cancel_path_prompt();
                    Request::Idle
                } else {
                    Request::CheckDestination { input }
                }
            },
            AppMode::NavigatePrompt => {
                let input = match self.get_navigate_input() {
                    Some(q) => q.to_owned(),
                    None => String::new(),
                };
                if input.as_str().is_empty() {
                    self.cancel_navigate();
                    Request::Idle
                } else if !validate_absolute_path(input.as_str()) {
                    self.set_status(error_status("Path must be absolute (start with '/')".to_owned()));
                    self.cancel_navigate();
                    Request::Idle
                } else {
                    Request::ResolveNavigate { path: input }
                }
            },
            _ => Request::Idle,
        }
    }

    /// The effect of answering yes to a confirmation.
    fn confirm_overwrite_request(&mut self) -> (r: Request)
        ensures
            old(self).action_effect(Action::ConfirmOverwrite, *final(self), r),
    {
        let chosen = match self.selected_entry() {
            Some(e) => Some((e.entry_type == EntryType::Directory, copy_string(&e.name), copy_string(&e.path))),
            None => None,
        };
        match &self.mode {
            AppMode::OverwriteConfirm { path } => {
                let local = copy_string(path);
                self.cancel_path_prompt();
                match chosen {
                    Some((is_dir, _name, remote)) => if is_dir {
                        Request::CopyDirectory { remote, local, replace_existing: true }
                    } else {
                        Request::CopyFile { remote, local }
                    },
                    None => Request::Idle,
                }
            },
            AppMode::DirectoryCopyConfirm { .. } => {
                match chosen {
                    Some((_is_dir, name, _remote)) => self.start_copy_prompt(name),
                    None => self.mode = AppMode::Browsing,
                }
                Request::Idle
            },
            _ => Request::Idle,
        }
    }
}


/// The message of a completed file copy.
fn copied_message(bytes: u64, local: &str) -> (s: String)
    ensures
        s@ == copied_text(bytes, local@),
{
    let mut s = String::new();
    push_str(&mut s, "Copied ");
    let size = format_size(bytes);
    push_str(&mut s, size.as_str());
    push_str(&mut s, " to ");
    push_str(&mut s, local);
    s
}

/// The message of a completed directory copy.
fn dir_copied_message(d: &DirCopyResult, local: &str) -> (s: String)
    ensures
        s@ == dir_copied_text(d.files_copied, d.bytes_transferred, local@, d.failures@.len()),
{
    let mut s = String::new();
    push_str(&mut s, "Copied ");
    push_decimal(&mut s, d.files_copied as u128);
    push_str(&mut s, " files (");
    let size = format_size(d.bytes_transferred);
    push_str(&mut s, size.as_str());
    push_str(&mut s, ") to ");
    push_str(&mut s, local);
    if d.failures.len() > 0 {
        push_str(&mut s, "; ");
        push_decimal(&mut s, d.failures.len() as u128);
        push_str(&mut s, " failed");
    }
    s
}

impl App {
    /// Take in the outcome of the I/O that `request` asked for: change the
    /// state as it says, and return the I/O that follows, if any.
    pub fn complete(&mut self, request: Request, outcome: Outcome) -> (r: Request)
        ensures
            old(self).completion_effect(request, outcome, *final(self), r),
    {
        match request {
            Request::ListDirectory { path, show_hidden: _, purpose } => match outcome {
                Outcome::Listed(res) => {
                    self.take_listing(path, purpose, res);
                    Request::Idle
                },
                _ => Request::Idle,
            },
            Request::ViewFile { .. } => match outcome {
                Outcome::Viewed(res) => {
                    match res {
                        Ok(_) => {},
                        Err(msg) => self.set_status(error_status(msg)),
                    }
                    Request::Idle
                },
                _ => Request::Idle,
            },
            Request::MeasureDirectory { remote } => match outcome {
                Outcome::Measured(res) => {
                    match res {
                        Ok(size) => self.mode = AppMode::DirectoryCopyConfirm { path: remote, size },
                        Err(msg) => self.set_status(error_status(msg)),
                    }
                    Request::Idle
                },
                _ => Request::Idle,
            },
            Request::LocalFind { .. } | Request::GlobalFind { .. } => match outcome {
                Outcome::Found(res) => {
                    match res {
                        Ok(results) => self.set_search_results(results),
                        Err(msg) => {
                            self.cancel_search();
                            self.set_status(error_status(msg));
                        },
                    }
                    Request::Idle
                },
                _ => Request::Idle,
            },
            Request::CheckDestination { .. } => match outcome {
                Outcome::DestinationChecked { local, check } => self.take_destination(local, check),
                _ => Request::Idle,
            },
            Request::CopyFile { remote: _, local } => match outcome {
                Outcome::FileCopied(res) => {
                    match res {
                        Ok(bytes) => self.set_status(success_status(copied_message(bytes, local.as_str()))),
                        Err(msg) => self.set_status(error_status(msg)),
                    }
                    Request::Idle
                },
                _ => Request::Idle,
            },
            Request::CopyDirectory { remote: _, local, replace_existing: _ } => match outcome {
                Outcome::DirectoryCopied(res) => {
                    match res {
                        Ok(d) => {
                            let msg = dir_copied_message(&d, local.as_str());
                            if d.failures.len() == 0 {
                                self.set_status(success_status(msg));
                            } else {
                                self.set_status(error_status(msg));
                            }
                        },
                        Err(msg) => self.set_status(error_status(msg)),
                    }
                    Request::Idle
                },
                _ => Request::Idle,
            },
            Request::ResolveNavigate { .. } => match outcome {
                Outcome::NavigateResolved(res) => match res {
                    Ok(NavigateTarget::Directory(d)) => {
                        self.cancel_navigate();
                        Request::ListDirectory {
                            path: d,
                            show_hidden: self.show_hidden,
                            purpose: ListPurpose::NavigateDirectory,
                        }
                    },
                    Ok(NavigateTarget::File { parent, filename }) => {
                        self.cancel_navigate();
                        Request::ListDirectory {
                            path: parent,
                            show_hidden: self.show_hidden,
                            purpose: ListPurpose::NavigateFile(filename),
                        }
                    },
                    Err(msg) => {
                        self.set_status(error_status(msg));
                        self.cancel_navigate();
                        Request::Idle
                    },
                },
                _ => Request::Idle,
            },
            _ => Request::Idle,
        }
    }

    /// Take in a directory listing made for `purpose`.
    fn take_listing(&mut self, path: String, purpose: ListPurpose, res: Result<Vec<DirectoryEntry>, String>)
        ensures
            match res {
                Ok(entries) => *final(self) == old(self).listed_state(path, entries, purpose),
                Err(msg) => status_set(*old(self), *final(self), msg@, StatusLevel::Error),
            },
    {
        match res {
            Err(msg) => self.set_status(error_status(msg)),
            Ok(entries) => match purpose {
                ListPurpose::Refresh => {
                    self.entries = entries;
                    self.selected_index = 0;
                },
                ListPurpose::SearchSelection(sel) => {
                    self.current_path = path;
                    self.entries = entries;
                    self.selected_index = 0;
                    match sel {
                        Some(f) => self.select_entry_by_name(f.as_str()),
                        None => {},
                    }
                    self.cancel_search();
                },
                ListPurpose::NavigateFile(f) => {
                    self.current_path = path;
                    self.entries = entries;
                    self.selected_index = 0;
                    self.select_entry_by_name(f.as_str());
                },
                _ => {
                    self.current_path = path;
                    self.entries = entries;
                    self.selected_index = 0;
                },
            },
        }
    }

    /// Take in the check of a copy destination.
    fn take_destination(&mut self, local: String, check: Result<bool, String>) -> (r: Request)
        ensures
            match check {
                Err(msg) => r is Idle && status_set(
                    old(self).path_prompt_cancelled(),
                    *final(self),
                    msg@,
                    StatusLevel::Error,
                ),
                Ok(exists) => if exists {
                    r is Idle && *final(self) == old(self).with_mode(AppMode::OverwriteConfirm { path: local })
                } else {
                    *final(self) == old(self).path_prompt_cancelled() && match old(self).spec_selected_entry() {
                        Some(e) => if e.entry_type == EntryType::Directory {
                            r matches Request::CopyDirectory { remote, local: l, replace_existing }
                                && remote@ == e.path@ && l@ == local@ && !replace_existing
                        } else {
                            r matches Request::CopyFile { remote, local: l } && remote@ == e.path@
                                && l@ == local@
                        },
                        None => r is Idle,
                    }
                },
            },
    {
        match check {
            Err(msg) => {
                self.set_status(error_status(msg));
                self.cancel_path_prompt();
                Request::Idle
            },
            Ok(exists) => if exists {
                self.mode = AppMode::OverwriteConfirm { path: local };
                Request::Idle
            } else {
                let chosen = match self.selected_entry() {
                    Some(e) => Some((e.entry_type == EntryType::Directory, copy_string(&e.path))),
                    None => None,
                };
                self.cancel_path_prompt();
                match chosen {
                    Some((is_dir, remote)) => if is_dir {
                        Request::CopyDirectory { remote, local, replace_existing: false }
                    } else {
                        Request::CopyFile { remote, local }
                    },
                    None => Request::Idle,
                }
            },
        }
    }
}

/// The hidden-file setting that a request which lists or searches carries.
pub open spec fn request_hidden(r: Request) -> Option<bool> {
    match r {
        Request::ListDirectory { show_hidden, .. } => Some(show_hidden),
        Request::LocalFind { show_hidden, .. } => Some(show_hidden),
        Request::GlobalFind { show_hidden, .. } => Some(show_hidden),
        _ => None,
    }
}

/// Every listing or search that an action asks for carries the hidden-file
/// setting of the state the action leaves: hidden entries are shown or
/// dropped as the user chose, never by a fixed rule. The setting itself
/// changes only by toggling it.
pub proof fn law_action_requests_follow_hidden_setting(a: App, action: Action, b: App, r: Request)
    requires
        a.action_effect(action, b, r),
    ensures
        request_hidden(r) matches Some(h) ==> h == b.show_hidden,
        b.show_hidden == (if action is ToggleHidden {
            !a.show_hidden
        } else {
            a.show_hidden
        }),
{
}

/// Every listing that completing a request asks for carries the hidden-file
/// setting of the state, which completing never changes.
pub proof fn law_completion_requests_follow_hidden_setting(
    a: App,
    req: Request,
    out: Outcome,
    b: App,
    r: Request,
)
    requires
        a.completion_effect(req, out, b, r),
    ensures
        request_hidden(r) matches Some(h) ==> h == a.show_hidden,
        b.show_hidden == a.show_hidden,
{
}

/// Confirming a search prompt with a query searches the current directory
/// (and, for a global search, everything below it) for that query, with the
/// state's hidden-file setting; confirming an empty query searches nothing
/// and leaves the prompt.
pub proof fn law_confirmed_search_request(a: App, t: SearchType, b: App, r: Request)
    requires
        a.mode == (AppMode::SearchPrompt { search_type: t }),
        a.action_effect(Action::ConfirmInput, b, r),
    ensures
        ({
            let q = match a.search_state {
                Some(st) => st.query@,
                None => Seq::<char>::empty(),
            };
            &&& q.len() == 0 ==> r is Idle && b.mode is Browsing && b.search_state is None
            &&& q.len() > 0 && t is Local ==> (r matches Request::LocalFind { dir, query, show_hidden }
                && dir@ == a.current_path@ && query@ == q && show_hidden == a.show_hidden)
            &&& q.len() > 0 && t is Global ==> (r matches Request::GlobalFind { dir, query, show_hidden }
                && dir@ == a.current_path@ && query@ == q && show_hidden == a.show_hidden)
            &&& q.len() > 0 ==> b.mode == (AppMode::Searching { search_type: t, progress: 0 })
        }),
{
}

/// The name that a listing made for `purpose` puts the cursor on.
pub open spec fn name_to_select(purpose: ListPurpose) -> Option<Seq<char>> {
    match purpose {
        ListPurpose::SearchSelection(Some(f)) => Some(f@),
        ListPurpose::NavigateFile(f) => Some(f@),
        _ => None,
    }
}

/// What the first entry with a name tells.
proof fn lemma_first_named_found(entries: Seq<DirectoryEntry>, name: Seq<char>)
    ensures
        first_named(entries, name) matches Some(k) ==> 0 <= k < entries.len() && entries[k].name@
            == name && forall|j: int| 0 <= j < k ==> (#[trigger] entries[j]).name@ != name,
        first_named(entries, name) is None ==> forall|i: int|
            0 <= i < entries.len() ==> (#[trigger] entries[i]).name@ != name,
    decreases entries.len(),
{
    if entries.len() > 0 {
        let prefix = entries.drop_last();
        lemma_first_named_found(prefix, name);
        assert forall|i: int| 0 <= i < prefix.len() implies prefix[i] == entries[i] by {}
        assert(entries[entries.len() - 1] == entries.last());
    }
}

/// A listing that arrives shows its entries. Except for a refresh, which
/// lists the current directory again, the directory listed becomes the
/// current one. Opening a search result closes the search; any other
/// listing leaves the mode and the search as they were. The cursor goes to
/// the first entry with the name to select, when the listing was made to
/// select one and some entry has it, and to the top otherwise.
pub proof fn law_listing_shows_listed_directory(
    a: App,
    path: String,
    show_hidden: bool,
    purpose: ListPurpose,
    entries: Vec<DirectoryEntry>,
    b: App,
    r: Request,
)
    requires
        a.completion_effect(
            Request::ListDirectory { path, show_hidden, purpose },
            Outcome::Listed(Ok(entries)),
            b,
            r,
        ),
    ensures
        r is Idle,
        b.entries@ == entries@,
        b.show_hidden == a.show_hidden,
        purpose is Refresh ==> b.current_path@ == a.current_path@,
        !(purpose is Refresh) ==> b.current_path@ == path@,
        purpose is SearchSelection ==> b.mode is Browsing && b.search_state is None,
        !(purpose is SearchSelection) ==> b.mode == a.mode && b.search_state == a.search_state,
        match name_to_select(purpose) {
            Some(f) => if exists|i: int| 0 <= i < entries@.len() && (#[trigger] entries@[i]).name@ == f {
                b.selected_index < entries@.len() && entries@[b.selected_index as int].name@ == f
                    && forall|j: int| 0 <= j < b.selected_index ==> (#[trigger] entries@[j]).name@ != f
            } else {
                b.selected_index == 0
            },
            None => b.selected_index == 0,
        },
{
    match name_to_select(purpose) {
        Some(f) => {
            lemma_first_named_found(entries@, f);
            assert(entries@.len() == entries.len());
            assert(b.selected_index == cursor_for(entries@, f));
            match first_named(entries@, f) {
                Some(k) => {
                    assert(b.selected_index as int == k);
                },
                None => {
                    assert(b.selected_index == 0);
                },
            }
        },
        None => {},
    }
}

/// Going to the parent and receiving its listing makes the parent the
/// current directory with its entries, the cursor at the top.
pub proof fn law_go_parent_moves_up(
    a: App,
    b1: App,
    r1: Request,
    entries: Vec<DirectoryEntry>,
    b2: App,
    r2: Request,
)
    requires
        a.action_effect(Action::GoParent, b1, r1),
        r1 is ListDirectory,
        b1.completion_effect(r1, Outcome::Listed(Ok(entries)), b2, r2),
    ensures
        parent_text(a.current_path@) != a.current_path@,
        b2.current_path@ == parent_text(a.current_path@),
        b2.entries@ == entries@,
        b2.selected_index == 0,
        b2.mode == a.mode,
{
}

/// Going to a typed directory and receiving its listing makes it the current
/// directory with its entries, in browsing mode.
pub proof fn law_navigate_directory_moves_there(
    a: App,
    typed: String,
    d: String,
    b1: App,
    r1: Request,
    entries: Vec<DirectoryEntry>,
    b2: App,
    r2: Request,
)
    requires
        a.completion_effect(
            Request::ResolveNavigate { path: typed },
            Outcome::NavigateResolved(Ok(NavigateTarget::Directory(d))),
            b1,
            r1,
        ),
        b1.completion_effect(r1, Outcome::Listed(Ok(entries)), b2, r2),
    ensures
        b2.current_path@ == d@,
        b2.entries@ == entries@,
        b2.selected_index == 0,
        b2.mode is Browsing,
        b2.show_hidden == a.show_hidden,
{
}

/// Opening a search result and receiving the listing of where it leads
/// shows that directory in browsing mode, with the search closed.
pub proof fn law_search_selection_opens_directory(
    a: App,
    b1: App,
    r1: Request,
    entries: Vec<DirectoryEntry>,
    b2: App,
    r2: Request,
)
    requires
        a.mode is SearchResults,
        a.action_effect(Action::Enter, b1, r1),
        r1 is ListDirectory,
        b1.completion_effect(r1, Outcome::Listed(Ok(entries)), b2, r2),
    ensures
        a.search_navigation() matches Some((target, _)) && b2.current_path@ == target,
        b2.entries@ == entries@,
        b2.mode is Browsing,
        b2.search_state is None,
{
}

/// Entering the selected directory and receiving its listing makes that
/// directory the current one, with its entries and the cursor at the top.
/// Enter on a file, or with nothing selected, asks for nothing.
pub proof fn law_enter_directory_moves_in(
    a: App,
    b1: App,
    r1: Request,
    entries: Vec<DirectoryEntry>,
    b2: App,
    r2: Request,
)
    requires
        a.mode is Browsing,
        a.action_effect(Action::Enter, b1, r1),
        b1.completion_effect(r1, Outcome::Listed(Ok(entries)), b2, r2),
    ensures
        (a.spec_selected_entry() matches Some(e) && e.entry_type == EntryType::Directory) ==> (r1 is ListDirectory
            && b2.current_path@ == a.spec_selected_entry()->0.path@ && b2.entries@ == entries@
            && b2.selected_index == 0 && b2.mode is Browsing),
        !(a.spec_selected_entry() matches Some(e) && e.entry_type == EntryType::Directory) ==> r1 is Idle,
{
}

/// Going to a typed file and receiving the listing of its parent makes the
/// parent the current directory, in browsing mode, with the cursor on the
/// first entry named like the file when there is one.
pub proof fn law_navigate_file_selects_it(
    a: App,
    typed: String,
    parent: String,
    filename: String,
    b1: App,
    r1: Request,
    entries: Vec<DirectoryEntry>,
    b2: App,
    r2: Request,
    k: int,
)
    requires
        a.completion_effect(
            Request::ResolveNavigate { path: typed },
            Outcome::NavigateResolved(Ok(NavigateTarget::File { parent, filename })),
            b1,
            r1,
        ),
        b1.completion_effect(r1, Outcome::Listed(Ok(entries)), b2, r2),
        0 <= k < entries@.len(),
        entries@[k].name@ == filename@,
    ensures
        b2.current_path@ == parent@,
        b2.entries@ == entries@,
        b2.mode is Browsing,
        b2.selected_index <= k,
        entries@[b2.selected_index as int].name@ == filename@,
{
    if let Request::ListDirectory { path, show_hidden, purpose } = r1 {
        law_listing_shows_listed_directory(b1, path, show_hidden, purpose, entries, b2, r2);
    }
}

/// Search results that arrive are shown, cursor on the first, in the mode
/// that shows results; a failed search closes the search with its message.
pub proof fn law_search_results_shown(a: App, req: Request, res: Result<Vec<DirectoryEntry>, String>, b: App, r: Request)
    requires
        req is LocalFind || req is GlobalFind,
        a.search_state is Some,
        a.completion_effect(req, Outcome::Found(res), b, r),
    ensures
        r is Idle,
        b.current_path == a.current_path,
        b.entries == a.entries,
        res matches Ok(results) ==> b.mode is SearchResults && (b.search_state matches Some(st)
            && st.results@ == results@ && st.selected_index == 0 && st.query == a.search_state->0.query),
        res matches Err(m) ==> b.mode is Browsing && b.search_state is None && (b.status_message matches Some(s)
            && s.text@ == m@ && s.level == StatusLevel::Error),
{
}

/// Cancelling a search, or aborting it, closes it: browsing mode, no search
/// state, the directory shown as it was.
pub proof fn law_cancel_closes_search(a: App, action: Action, b: App, r: Request)
    requires
        action is AbortSearch || (action is CancelInput && (a.mode is SearchPrompt || a.mode is SearchResults)),
        a.action_effect(action, b, r),
    ensures
        r is Idle,
        b.mode is Browsing,
        b.search_state is None,
        b.current_path == a.current_path,
        b.entries == a.entries,
        b.selected_index == a.selected_index,
{
}

/// Toggling hidden files flips the setting and lists the current directory
/// again with the new setting; when the listing arrives the directory shown
/// is still the current one, with the new entries and the cursor at the top.
pub proof fn law_toggle_hidden_relists_current(
    a: App,
    b1: App,
    r1: Request,
    entries: Vec<DirectoryEntry>,
    b2: App,
    r2: Request,
)
    requires
        a.action_effect(Action::ToggleHidden, b1, r1),
        b1.completion_effect(r1, Outcome::Listed(Ok(entries)), b2, r2),
    ensures
        r1 matches Request::ListDirectory { path, show_hidden, .. } && path@ == a.current_path@
            && show_hidden == !a.show_hidden,
        b2.show_hidden == !a.show_hidden,
        b2.current_path == a.current_path,
        b2.entries@ == entries@,
        b2.selected_index == 0,
{
}

/// Copying a selected directory first measures it, and its size, once
/// known, is put to the user for confirmation together with its path.
pub proof fn law_directory_copy_asks_with_size(
    a: App,
    b1: App,
    r1: Request,
    size: u64,
    b2: App,
    r2: Request,
)
    requires
        a.spec_selected_entry() matches Some(e) && e.entry_type == EntryType::Directory,
        a.action_effect(Action::CopyFile, b1, r1),
        b1.completion_effect(r1, Outcome::Measured(Ok(size)), b2, r2),
    ensures
        r2 is Idle,
        b2.mode matches AppMode::DirectoryCopyConfirm { path, size: z } && path@
            == a.spec_selected_entry()->0.path@ && z == size,
{
}

/// Allowing the overwrite copies the selected entry to the path asked
/// about: a file as a file, a directory as a whole directory that replaces
/// what is there; the prompt closes.
pub proof fn law_overwrite_copies_selected(a: App, dest: String, b: App, r: Request)
    requires
        a.mode == (AppMode::OverwriteConfirm { path: dest }),
        a.spec_selected_entry() is Some,
        a.action_effect(Action::ConfirmOverwrite, b, r),
    ensures
        b.mode is Browsing,
        b.path_prompt_state is None,
        a.spec_selected_entry()->0.entry_type == EntryType::Directory ==> (r matches Request::CopyDirectory {
            remote,
            local,
            replace_existing,
        } && remote@ == a.spec_selected_entry()->0.path@ && local@ == dest@ && replace_existing),
        a.spec_selected_entry()->0.entry_type != EntryType::Directory ==> (r matches Request::CopyFile {
            remote,
            local,
        } && remote@ == a.spec_selected_entry()->0.path@ && local@ == dest@),
{
}

/// A destination that does not exist yet is copied to at once: the selected
/// entry goes to the destination as resolved, a directory without replacing
/// anything; one that exists is asked about first.
pub proof fn law_destination_check_copies_or_asks(
    a: App,
    input: String,
    local: String,
    exists: bool,
    b: App,
    r: Request,
)
    requires
        a.spec_selected_entry() is Some,
        a.completion_effect(
            Request::CheckDestination { input },
            Outcome::DestinationChecked { local, check: Ok(exists) },
            b,
            r,
        ),
    ensures
        exists ==> r is Idle && b.mode == (AppMode::OverwriteConfirm { path: local }),
        !exists && a.spec_selected_entry()->0.entry_type == EntryType::Directory ==> (r matches Request::CopyDirectory {
            remote,
            local: l,
            replace_existing,
        } && remote@ == a.spec_selected_entry()->0.path@ && l@ == local@ && !replace_existing),
        !exists && a.spec_selected_entry()->0.entry_type != EntryType::Directory ==> (r matches Request::CopyFile {
            remote,
            local: l,
        } && remote@ == a.spec_selected_entry()->0.path@ && l@ == local@),
{
}

} // verus!
