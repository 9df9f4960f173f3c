//! Application state machine: the browsing cursor, the search, copy and
//! navigation prompts, and the status line.
use std::time::{Duration, Instant};
use vstd::prelude::*;

use crate::paths::path_parent;
use crate::paths::parent_of;
use crate::text::{chars_of, copy_string, pop_char, push_char, string_from_chars};
use crate::types::{DirectoryEntry, EntryType, StatusLevel, StatusMessage};

verus! {

/// `Instant::elapsed`: the time since `t`. The result depends on the
/// clock; nothing is stated of it.
#[verifier::external_body]
fn elapsed_since(t: &Instant) -> Duration {
    t.elapsed()
}

/// `Duration::as_millis`: the whole milliseconds of `d`. The duration is
/// opaque here, so nothing is stated of the result.
#[verifier::external_body]
fn whole_millis(d: &Duration) -> u128 {
    d.as_millis()
}

/// How long a status message stays visible, in milliseconds.
pub const STATUS_LIFETIME_MS: u128 = 3000;

/// The type of search being performed.
#[derive(Debug, Clone, Copy, PartialEq, Eq, Structural)]
pub enum SearchType {
    Local,
    Global,
}

/// Application mode representing the current state of the TUI.
#[derive(Debug, Clone, PartialEq, Eq)]
pub enum AppMode {
    Browsing,
    SearchPrompt { search_type: SearchType },
    Searching { search_type: SearchType, progress: usize },
    SearchResults,
    PathPrompt,
    OverwriteConfirm { path: String },
    Copying { bytes_transferred: u64 },
    NavigatePrompt,
    DirectoryCopyConfirm { path: String, size: u64 },
}

/// State for an active or completed search operation.
#[derive(Debug, Clone)]
pub struct SearchState {
    pub search_type: SearchType,
    pub query: String,
    pub results: Vec<DirectoryEntry>,
    pub selected_index: usize,
}

/// State for the file copy path prompt.
#[derive(Debug, Clone)]
pub struct PathPromptState {
    pub input: String,
    pub default_name: String,
}

/// State for the direct path navigation prompt.
#[derive(Debug, Clone)]
pub struct NavigatePromptState {
    pub input: String,
}

/// Describes where to navigate after selecting a search result.
#[derive(Debug, Clone, PartialEq, Eq)]
pub struct SearchNavigation {
    /// The directory path to navigate to.
    pub target_path: String,
    /// If Some, place cursor on this filename after listing the directory.
    pub select_filename: Option<String>,
}

/// Main application state.
pub struct App {
    pub mode: AppMode,
    pub current_path: String,
    pub entries: Vec<DirectoryEntry>,
    pub selected_index: usize,
    pub show_hidden: bool,
    pub status_message: Option<StatusMessage>,
    pub search_state: Option<SearchState>,
    pub path_prompt_state: Option<PathPromptState>,
    pub navigate_prompt_state: Option<NavigatePromptState>,
    pub loading: bool,
}

/// The position of the first entry named `name`, if any.
pub open spec fn first_named(entries: Seq<DirectoryEntry>, name: Seq<char>) -> Option<int>
    decreases entries.len(),
{
    if entries.len() == 0 {
        None
    } else {
        match first_named(entries.drop_last(), name) {
            Some(k) => Some(k),
            None => if entries.last().name@ == name {
                Some(entries.len() - 1)
            } else {
                None
            },
        }
    }
}

/// A first match found in a prefix is the first match of the whole list.
proof fn lemma_first_named_prefix(entries: Seq<DirectoryEntry>, name: Seq<char>, k: int)
    requires
        0 <= k <= entries.len(),
        first_named(entries.take(k), name) is Some,
    ensures
        first_named(entries, name) == first_named(entries.take(k), name),
    decreases entries.len() - k,
{
    if k < entries.len() {
        assert(entries.take(k + 1).drop_last() == entries.take(k));
        lemma_first_named_prefix(entries, name, k + 1);
    } else {
        assert(entries.take(k) == entries);
    }
}

/// A match lies within the list.
proof fn lemma_first_named_bounds(entries: Seq<DirectoryEntry>, name: Seq<char>)
    ensures
        first_named(entries, name) matches Some(k) ==> 0 <= k < entries.len()
            && entries[k].name@ == name,
    decreases entries.len(),
{
    if entries.len() > 0 {
        lemma_first_named_bounds(entries.drop_last(), name);
    }
}

/// The cursor after moving down in a list of `len` items.
pub open spec fn index_down(i: usize, len: nat) -> usize {
    if len > 0 && i < len - 1 {
        (i + 1) as usize
    } else {
        i
    }
}

/// The cursor after moving up.
pub open spec fn index_up(i: usize) -> usize {
    if i > 0 {
        (i - 1) as usize
    } else {
        i
    }
}

/// The search state after applying `f` to its query text, if a search is
/// active.
pub open spec fn query_is(s: Option<SearchState>, q: Seq<char>) -> bool {
    s matches Some(st) && st.query@ == q
}

impl App {
    /// The state with only the search state replaced.
    pub open spec fn with_search(self, s: Option<SearchState>) -> App {
        App { search_state: s, ..self }
    }

    /// The state with only the mode replaced.
    pub open spec fn with_mode(self, m: AppMode) -> App {
        App { mode: m, ..self }
    }

    /// The state with only the cursor replaced.
    pub open spec fn with_cursor(self, i: usize) -> App {
        App { selected_index: i, ..self }
    }

    /// The state with only the status message replaced.
    pub open spec fn with_status(self, m: Option<StatusMessage>) -> App {
        App { status_message: m, ..self }
    }

    /// The state with only the path prompt replaced.
    pub open spec fn with_path_prompt(self, p: Option<PathPromptState>) -> App {
        App { path_prompt_state: p, ..self }
    }

    /// The state with only the navigate prompt replaced.
    pub open spec fn with_navigate_prompt(self, p: Option<NavigatePromptState>) -> App {
        App { navigate_prompt_state: p, ..self }
    }

    /// The currently selected entry, if the cursor is on one.
    pub open spec fn spec_selected_entry(self) -> Option<DirectoryEntry> {
        if self.selected_index < self.entries@.len() {
            Some(self.entries@[self.selected_index as int])
        } else {
            None
        }
    }

    /// The currently selected search result, if any.
    pub open spec fn spec_selected_search_entry(self) -> Option<DirectoryEntry> {
        match self.search_state {
            Some(st) => if st.selected_index < st.results@.len() {
                Some(st.results@[st.selected_index as int])
            } else {
                None
            },
            None => None,
        }
    }

    /// The state after moving the cursor down.
    pub open spec fn cursor_down(self) -> App {
        self.with_cursor(index_down(self.selected_index, self.entries@.len()))
    }

    /// The state after moving the cursor up.
    pub open spec fn cursor_up(self) -> App {
        self.with_cursor(index_up(self.selected_index))
    }

    /// The state after moving the search results cursor down.
    pub open spec fn search_cursor_down(self) -> App {
        match self.search_state {
            Some(st) => self.with_search(
                Some(
                    SearchState {
                        selected_index: index_down(st.selected_index, st.results@.len()),
                        ..st
                    },
                ),
            ),
            None => self,
        }
    }

    /// The state after moving the search results cursor up.
    pub open spec fn search_cursor_up(self) -> App {
        match self.search_state {
            Some(st) => self.with_search(
                Some(SearchState { selected_index: index_up(st.selected_index), ..st }),
            ),
            None => self,
        }
    }

    /// The state after cancelling the search.
    pub open spec fn search_cancelled(self) -> App {
        self.with_search(None).with_mode(AppMode::Browsing)
    }

    /// The state after cancelling the path prompt.
    pub open spec fn path_prompt_cancelled(self) -> App {
        self.with_mode(AppMode::Browsing).with_path_prompt(None)
    }

    /// The state after cancelling the navigate prompt.
    pub open spec fn navigate_cancelled(self) -> App {
        self.with_mode(AppMode::Browsing).with_navigate_prompt(None)
    }

    /// The state after search results arrive.
    pub open spec fn results_shown(self, results: Vec<DirectoryEntry>) -> App {
        match self.search_state {
            Some(st) => self.with_mode(AppMode::SearchResults).with_search(
                Some(SearchState { results, selected_index: 0, ..st }),
            ),
            None => self.with_mode(AppMode::SearchResults),
        }
    }

    /// `b` is this state with a new, empty search of type `t` prompting for
    /// its query.
    pub open spec fn search_started(self, b: App, t: SearchType) -> bool {
        &&& b.mode == (AppMode::SearchPrompt { search_type: t })
        &&& b.search_state matches Some(st) && st.search_type == t && st.query@ == Seq::<
            char,
        >::empty() && st.results@ == Seq::<DirectoryEntry>::empty() && st.selected_index == 0
        &&& b == self.with_mode(b.mode).with_search(b.search_state)
    }

    /// `b` is this state with `c` added to the search query, if a search is
    /// active.
    pub open spec fn search_char_added(self, b: App, c: char) -> bool {
        match self.search_state {
            None => b == self,
            Some(st) => b.search_state matches Some(nst) && nst.query@ == st.query@.push(c) && nst
                == (SearchState { query: nst.query, ..st }) && b == self.with_search(
                b.search_state,
            ),
        }
    }

    /// `b` is this state with the last character of the search query
    /// removed, if a search is active and its query is not empty.
    pub open spec fn search_char_removed(self, b: App) -> bool {
        match self.search_state {
            None => b == self,
            Some(st) => b.search_state matches Some(nst) && nst.query@ == (if st.query@.len() > 0 {
                st.query@.drop_last()
            } else {
                st.query@
            }) && nst == (SearchState { query: nst.query, ..st }) && b == self.with_search(
                b.search_state,
            ),
        }
    }

    /// `b` is this state prompting for a path to go to, with empty input.
    pub open spec fn navigate_started(self, b: App) -> bool {
        &&& b.navigate_prompt_state matches Some(p) && p.input@ == Seq::<char>::empty()
        &&& b == self.with_mode(AppMode::NavigatePrompt).with_navigate_prompt(
            b.navigate_prompt_state,
        )
    }

    /// `b` is this state with `c` added to the navigate input, if active.
    pub open spec fn navigate_char_added(self, b: App, c: char) -> bool {
        match self.navigate_prompt_state {
            None => b == self,
            Some(p) => b.navigate_prompt_state matches Some(np) && np.input@ == p.input@.push(c)
                && b == self.with_navigate_prompt(b.navigate_prompt_state),
        }
    }

    /// `b` is this state with the last character of the navigate input
    /// removed, if active and not empty.
    pub open spec fn navigate_char_removed(self, b: App) -> bool {
        match self.navigate_prompt_state {
            None => b == self,
            Some(p) => b.navigate_prompt_state matches Some(np) && np.input@ == (if p.input@.len()
                > 0 {
                p.input@.drop_last()
            } else {
                p.input@
            }) && b == self.with_navigate_prompt(b.navigate_prompt_state),
        }
    }

    /// `b` is this state prompting for a copy destination, pre-filled with
    /// `name`.
    pub open spec fn copy_prompt_started(self, b: App, name: String) -> bool {
        &&& b.path_prompt_state matches Some(p) && p.input == name && p.default_name == name
        &&& b == self.with_mode(AppMode::PathPrompt).with_path_prompt(b.path_prompt_state)
    }

    /// `b` is this state with `c` added to the copy destination, if active.
    pub open spec fn path_char_added(self, b: App, c: char) -> bool {
        match self.path_prompt_state {
            None => b == self,
            Some(p) => b.path_prompt_state matches Some(np) && np.input@ == p.input@.push(c)
                && np.default_name == p.default_name && b == self.with_path_prompt(
                b.path_prompt_state,
            ),
        }
    }

    /// `b` is this state with the last character of the copy destination
    /// removed, if active and not empty.
    pub open spec fn path_char_removed(self, b: App) -> bool {
        match self.path_prompt_state {
            None => b == self,
            Some(p) => b.path_prompt_state matches Some(np) && np.input@ == (if p.input@.len() > 0 {
                p.input@.drop_last()
            } else {
                p.input@
            }) && np.default_name == p.default_name && b == self.with_path_prompt(
                b.path_prompt_state,
            ),
        }
    }

    /// Where selecting the current search result leads: into a directory
    /// result, or to the parent of another result with that result's name
    /// to select.
    pub open spec fn search_navigation(self) -> Option<(Seq<char>, Option<Seq<char>>)> {
        match self.spec_selected_search_entry() {
            None => None,
            Some(e) => if e.entry_type == EntryType::Directory {
                Some((e.path@, None))
            } else {
                match path_parent(e.path@) {
                    None => None,
                    Some(p) => Some((p, Some(e.name@))),
                }
            },
        }
    }

    /// Create a new App with the given initial path and directory entries.
    pub fn new(initial_path: String, entries: Vec<DirectoryEntry>) -> (app: Self)
        ensures
            app.mode == AppMode::Browsing,
            app.current_path == initial_path,
            app.entries == entries,
            app.selected_index == 0,
            !app.show_hidden,
            app.status_message is None,
            app.search_state is None,
            app.path_prompt_state is None,
            app.navigate_prompt_state is None,
            !app.loading,
    {
        App {
            mode: AppMode::Browsing,
            current_path: initial_path,
            entries,
            selected_index: 0,
            show_hidden: false,
            status_message: None,
            search_state: None,
            path_prompt_state: None,
            navigate_prompt_state: None,
            loading: false,
        }
    }

    /// Move the selection cursor down by one entry. Clamps at the last entry.
    pub fn move_cursor_down(&mut self)
        ensures
            *final(self) == old(self).cursor_down(),
    {
        if self.entries.len() > 0 && self.selected_index < self.entries.len() - 1 {
            self.selected_index = self.selected_index + 1;
        }
    }

    /// Move the selection cursor up by one entry. Clamps at the first entry.
    pub fn move_cursor_up(&mut self)
        ensures
            *final(self) == old(self).cursor_up(),
    {
        if self.selected_index > 0 {
            self.selected_index = self.selected_index - 1;
        }
    }

    /// Returns a reference to the currently selected directory entry, if any.
    pub fn selected_entry(&self) -> (r: Option<&DirectoryEntry>)
        ensures
            r == match self.spec_selected_entry() {
                Some(e) => Some(&e),
                None => None::<&DirectoryEntry>,
            },
    {
        if self.selected_index < self.entries.len() {
            Some(&self.entries[self.selected_index])
        } else {
            None
        }
    }

    /// Set the current status message.
    pub fn set_status(&mut self, message: StatusMessage)
        ensures
            *final(self) == old(self).with_status(Some(message)),
    {
        self.status_message = Some(message);
    }

    /// Clear the status message if it has been displayed for at least 3 seconds.
    pub fn clear_expired_status(&mut self)
        ensures
            *final(self) == *old(self) || *final(self) == old(self).with_status(None),
    {
        let elapsed = match &self.status_message {
            Some(msg) => whole_millis(&elapsed_since(&msg.created_at)),
            None => 0,
        };
        self.expire_status(elapsed);
    }

    /// Clear the status message when it has been shown for `elapsed_ms`
    /// milliseconds or more, the lifetime being 3 seconds.
    pub fn expire_status(&mut self, elapsed_ms: u128)
        ensures
            old(self).status_message is Some && elapsed_ms >= STATUS_LIFETIME_MS ==> *final(self)
                == old(self).with_status(None),
            !(old(self).status_message is Some && elapsed_ms >= STATUS_LIFETIME_MS) ==> *final(self) == *old(self),
    {
        if self.status_message.is_some() && elapsed_ms >= STATUS_LIFETIME_MS {
            self.status_message = None;
        }
    }

    /// Set the cursor to the entry matching the given filename, or 0 if not found.
    pub fn select_entry_by_name(&mut self, name: &str)
        ensures
            *final(self) == old(self).with_cursor(
                match first_named(old(self).entries@, name@) {
                    Some(k) => k as usize,
                    None => 0,
                },
            ),
    {
        let mut i: usize = 0;
        assert(self.entries@.take(0) =~= Seq::<DirectoryEntry>::empty());
        while i < self.entries.len()
            invariant
                *self == *old(self),
                i <= self.entries@.len(),
                first_named(self.entries@.take(i as int), name@) is None,
            decreases self.entries@.len() - i,
        {
            assert(self.entries@.take(i + 1).drop_last() == self.entries@.take(i as int));
            if crate::text::strings_equal(self.entries[i].name.as_str(), name) {
                proof {
                    lemma_first_named_prefix(self.entries@, name@, i + 1);
                }
                self.selected_index = i;
                return;
            }
            i = i + 1;
        }
        assert(self.entries@.take(self.entries@.len() as int) == self.entries@);
        self.selected_index = 0;
    }

    /// Start a search operation: set mode to SearchPrompt and initialize search_state.
    pub fn start_search(&mut self, search_type: SearchType)
        ensures
            old(self).search_started(*final(self), search_type),
    {
        self.search_state = Some(
            SearchState {
                search_type,
                query: String::new(),
                results: Vec::new(),
                selected_index: 0,
            },
        );
        self.mode = AppMode::SearchPrompt { search_type };
    }

    /// Append a character to the current search query.
    /// Does nothing if no search_state is active.
    pub fn append_search_char(&mut self, c: char)
        ensures
            old(self).search_char_added(*final(self), c),
    {
        match &mut self.search_state {
            Some(state) => {
                push_char(&mut state.query, c);
            },
            None => {},
        }
    }

    /// Delete the last character from the current search query.
    /// Does nothing if no search_state is active or query is empty.
    pub fn delete_search_char(&mut self)
        ensures
            old(self).search_char_removed(*final(self)),
    {
        match &mut self.search_state {
            Some(state) => {
                pop_char(&mut state.query);
            },
            None => {},
        }
    }

    /// Store search results and switch to SearchResults mode.
    pub fn set_search_results(&mut self, results: Vec<DirectoryEntry>)
        ensures
            *final(self) == old(self).results_shown(results),
    {
        match &mut self.search_state {
            Some(state) => {
                state.results = results;
                state.selected_index = 0;
            },
            None => {},
        }
        self.mode = AppMode::SearchResults;
    }

    /// Cancel the current search and return to Browsing mode.
    /// Clears search_state entirely.
    pub fn cancel_search(&mut self)
        ensures
            *final(self) == old(self).search_cancelled(),
    {
        self.search_state = None;
        self.mode = AppMode::Browsing;
    }

    /// Move the search results cursor up by one entry. Clamps at index 0.
    pub fn move_search_cursor_up(&mut self)
        ensures
            *final(self) == old(self).search_cursor_up(),
    {
        match &mut self.search_state {
            Some(state) => {
                if state.selected_index > 0 {
                    state.selected_index = state.selected_index - 1;
                }
            },
            None => {},
        }
    }

    /// Move the search results cursor down by one entry. Clamps at the last result.
    pub fn move_search_cursor_down(&mut self)
        ensures
            *final(self) == old(self).search_cursor_down(),
    {
        match &mut self.search_state {
            Some(state) => {
                if state.results.len() > 0 && state.selected_index < state.results.len() - 1 {
                    state.selected_index = state.selected_index + 1;
                }
            },
            None => {},
        }
    }

    /// Returns a reference to the currently selected search result entry, if any.
    pub fn selected_search_entry(&self) -> (r: Option<&DirectoryEntry>)
        ensures
            r == match self.spec_selected_search_entry() {
                Some(e) => Some(&e),
                None => None::<&DirectoryEntry>,
            },
    {
        match &self.search_state {
            Some(state) => {
                if state.selected_index < state.results.len() {
                    Some(&state.results[state.selected_index])
                } else {
                    None
                }
            },
            None => None,
        }
    }

    /// Get the current search query, if a search is active.
    pub fn search_query(&self) -> (r: Option<&str>)
        ensures
            r is None <==> self.search_state is None,
            r matches Some(q) ==> query_is(self.search_state, q@),
    {
        match &self.search_state {
            Some(s) => Some(s.query.as_str()),
            None => None,
        }
    }

    /// Get the current search type, if a search is active.
    pub fn search_type(&self) -> (r: Option<&SearchType>)
        ensures
            r is None <==> self.search_state is None,
            r matches Some(t) ==> self.search_state matches Some(st) && *t == st.search_type,
    {
        match &self.search_state {
            Some(s) => Some(&s.search_type),
            None => None,
        }
    }

    /// Set mode to Searching with progress indicator.
    pub fn set_searching(&mut self, search_type: SearchType)
        ensures
            *final(self) == old(self).with_mode(AppMode::Searching { search_type, progress: 0 }),
    {
        self.mode = AppMode::Searching { search_type, progress: 0 };
    }

    /// Update the search progress counter (directories traversed).
    pub fn update_search_progress(&mut self, progress: usize)
        ensures
            old(self).mode matches AppMode::Searching { search_type, .. } ==> *final(self) == old(self).with_mode(AppMode::Searching { search_type, progress }),
            !(old(self).mode is Searching) ==> *final(self) == *old(self),
    {
        match &mut self.mode {
            AppMode::Searching { progress: p, .. } => {
                *p = progress;
            },
            _ => {},
        }
    }

    /// Navigate to a search result. If the result is a directory, sets up navigation
    /// into it. If a file, navigates to parent directory with cursor on the file.
    /// Returns the target path to navigate to and optionally a filename to select.
    pub fn resolve_search_selection(&self) -> (r: Option<SearchNavigation>)
        ensures
            r is None <==> self.search_navigation() is None,
            r matches Some(n) ==> self.search_navigation() == Some(
                (
                    n.target_path@,
                    match n.select_filename {
                        Some(f) => Some(f@),
                        None => None,
                    },
                ),
            ),
    {
        let entry = match self.selected_search_entry() {
            Some(e) => e,
            None => {
                return None;
            },
        };
        match entry.entry_type {
            EntryType::Directory => Some(
                SearchNavigation { target_path: copy_string(&entry.path), select_filename: None },
            ),
            EntryType::File | EntryType::Symlink => {
                let v = chars_of(entry.path.as_str());
                let parent = match parent_of(v.as_slice()) {
                    Some(p) => p,
                    None => {
                        return None;
                    },
                };
                Some(
                    SearchNavigation {
                        target_path: string_from_chars(parent.as_slice()),
                        select_filename: Some(copy_string(&entry.name)),
                    },
                )
            },
        }
    }

    // --- Navigate prompt state management ---
    /// Enter NavigatePrompt mode with an empty input buffer.
    pub fn start_navigate(&mut self)
        ensures
            old(self).navigate_started(*final(self)),
    {
        self.mode = AppMode::NavigatePrompt;
        self.navigate_prompt_state = Some(NavigatePromptState { input: String::new() });
    }

    /// Append a character to the navigate prompt input.
    pub fn append_navigate_char(&mut self, c: char)
        ensures
            old(self).navigate_char_added(*final(self), c),
    {
        match &mut self.navigate_prompt_state {
            Some(state) => {
                push_char(&mut state.input, c);
            },
            None => {},
        }
    }

    /// Delete the last character from the navigate prompt input.
    pub fn delete_navigate_char(&mut self)
        ensures
            old(self).navigate_char_removed(*final(self)),
    {
        match &mut self.navigate_prompt_state {
            Some(state) => {
                pop_char(&mut state.input);
            },
            None => {},
        }
    }

    /// Cancel the navigate prompt and return to Browsing mode.
    pub fn cancel_navigate(&mut self)
        ensures
            *final(self) == old(self).navigate_cancelled(),
    {
        self.mode = AppMode::Browsing;
        self.navigate_prompt_state = None;
    }

    /// Get the current navigate prompt input, if active.
    pub fn get_navigate_input(&self) -> (r: Option<&str>)
        ensures
            r is None <==> self.navigate_prompt_state is None,
            r matches Some(q) ==> self.navigate_prompt_state matches Some(p) && p.input@ == q@,
    {
        match &self.navigate_prompt_state {
            Some(s) => Some(s.input.as_str()),
            None => None,
        }
    }

    // --- Path prompt (copy) state management ---
    /// Enter PathPrompt mode with the default filename pre-filled.
    pub fn start_copy_prompt(&mut self, default_name: String)
        ensures
            old(self).copy_prompt_started(*final(self), default_name),
    {
        self.mode = AppMode::PathPrompt;
        let input = copy_string(&default_name);
        self.path_prompt_state = Some(PathPromptState { input, default_name });
    }

    /// Append a character to the path prompt input.
    pub fn append_path_char(&mut self, c: char)
        ensures
            old(self).path_char_added(*final(self), c),
    {
        match &mut self.path_prompt_state {
            Some(state) => {
                push_char(&mut state.input, c);
            },
            None => {},
        }
    }

    /// Delete the last character from the path prompt input.
    pub fn delete_path_char(&mut self)
        ensures
            old(self).path_char_removed(*final(self)),
    {
        match &mut self.path_prompt_state {
            Some(state) => {
                pop_char(&mut state.input);
            },
            None => {},
        }
    }

    /// Cancel the path prompt and return to Browsing mode.
    pub fn cancel_path_prompt(&mut self)
        ensures
            *final(self) == old(self).path_prompt_cancelled(),
    {
        self.mode = AppMode::Browsing;
        self.path_prompt_state = None;
    }

    /// Get the current path prompt input, if active.
    pub fn get_path_input(&self) -> (r: Option<&str>)
        ensures
            r is None <==> self.path_prompt_state is None,
            r matches Some(q) ==> self.path_prompt_state matches Some(p) && p.input@ == q@,
    {
        match &self.path_prompt_state {
            Some(s) => Some(s.input.as_str()),
            None => None,
        }
    }
}


/// Moving the cursor keeps it on an entry: from any entry of a non-empty
/// list, down goes to the next entry or stays on the last, and up goes to
/// the previous entry or stays on the first.
pub proof fn law_cursor_stays_in_bounds(app: App)
    requires
        app.selected_index < app.entries@.len() <= usize::MAX,
    ensures
        app.cursor_down().selected_index < app.entries@.len(),
        app.cursor_up().selected_index < app.entries@.len(),
        app.selected_index + 1 < app.entries@.len() ==> app.cursor_down().selected_index
            == app.selected_index + 1,
        app.selected_index + 1 == app.entries@.len() ==> app.cursor_down().selected_index
            == app.selected_index,
        app.selected_index > 0 ==> app.cursor_up().selected_index == app.selected_index - 1,
        app.selected_index == 0 ==> app.cursor_up().selected_index == 0,
{
}

/// In a list whose names are all different, looking an entry's name up
/// finds that entry, and a name that no entry has finds nothing (so the
/// cursor goes to the first entry).
pub proof fn law_lookup_by_unique_name(entries: Seq<DirectoryEntry>, k: int, absent: Seq<char>)
    requires
        forall|i: int, j: int|
            0 <= i < j < entries.len() ==> (#[trigger] entries[i]).name@ != (#[trigger] entries[j]).name@,
        0 <= k < entries.len(),
        forall|i: int| 0 <= i < entries.len() ==> (#[trigger] entries[i]).name@ != absent,
    ensures
        first_named(entries, entries[k].name@) == Some(k),
        first_named(entries, absent) is None,
    decreases entries.len(),
{
    lemma_first_named_absent(entries, absent);
    if k < entries.len() - 1 {
        let prefix = entries.drop_last();
        assert forall|i: int| 0 <= i < prefix.len() implies (#[trigger] prefix[i]).name@ != absent by {
            assert(prefix[i] == entries[i]);
        }
        assert forall|i: int, j: int|
            0 <= i < j < prefix.len() implies (#[trigger] prefix[i]).name@ != (#[trigger] prefix[j]).name@ by {
            assert(prefix[i] == entries[i]);
            assert(prefix[j] == entries[j]);
        }
        law_lookup_by_unique_name(prefix, k, absent);
        assert(prefix[k] == entries[k]);
    } else {
        let prefix = entries.drop_last();
        assert forall|i: int| 0 <= i < prefix.len() implies (#[trigger] prefix[i]).name@ != entries[k].name@ by {
            assert(prefix[i] == entries[i]);
        }
        lemma_first_named_absent(prefix, entries[k].name@);
    }
}

/// A name that no entry has is found nowhere.
proof fn lemma_first_named_absent(entries: Seq<DirectoryEntry>, name: Seq<char>)
    requires
        forall|i: int| 0 <= i < entries.len() ==> (#[trigger] entries[i]).name@ != name,
    ensures
        first_named(entries, name) is None,
    decreases entries.len(),
{
    if entries.len() > 0 {
        let prefix = entries.drop_last();
        assert forall|i: int| 0 <= i < prefix.len() implies (#[trigger] prefix[i]).name@ != name by {
            assert(prefix[i] == entries[i]);
        }
        lemma_first_named_absent(prefix, name);
        assert(entries[entries.len() - 1] == entries.last());
    }
}

} // verus!
