//! What the screen shows: the header line, the rows of the file list, the
//! prompt under it and the footer, as text. Drawing them (colours, borders,
//! the terminal) is left to the caller. Widths are counted in characters.
use vstd::prelude::*;

use crate::app::{App, AppMode, SearchType};
use crate::text::{chars_of, push_chars, push_char, push_decimal, push_str, string_from_range, decimal};
use crate::types::{format_size, size_text, truncate_name, truncated, DirectoryEntry, EntryType, StatusLevel, StatusMessage};

verus! {

broadcast use vstd::string::group_string_axioms;

/// `a - b`, or 0 when `b` is larger.
pub open spec fn sat_sub(a: int, b: nat) -> nat {
    if a > b {
        (a - b) as nat
    } else {
        0
    }
}

/// `user@host`.
pub open spec fn connection_text(user: Seq<char>, host: Seq<char>) -> Seq<char> {
    user + seq!['@'] + host
}

/// The path as the header shows it in `max` characters: whole when it
/// fits, else `...` and its last `max - 3` characters (when `max` leaves
/// room for more than the marker), and nothing when `max` is 0. Lengths are
/// counted in characters, so a path with multi-byte characters is cut
/// between characters and takes the room it is shown in; counting bytes
/// instead could cut a character in two.
pub open spec fn header_path(path: Seq<char>, max: nat) -> Seq<char> {
    if path.len() > max && max > 3 {
        seq!['.', '.', '.'] + path.skip(path.len() - (max - 3))
    } else if max == 0 {
        Seq::empty()
    } else {
        path
    }
}

/// The header line: the current path on the left, `user@host` on the
/// right, and the spaces between them.
pub struct HeaderView {
    pub path: String,
    pub padding: usize,
    pub connection: String,
}

/// The header line for a terminal `width` characters wide.
pub fn header_view(current_path: &str, username: &str, host: &str, width: usize) -> (r: HeaderView)
    ensures
        r.connection@ == connection_text(username@, host@),
        r.path@ == header_path(current_path@, sat_sub(width as int, r.connection@.len() + 1nat)),
        r.padding == sat_sub(width as int, r.path@.len() + r.connection@.len()),
{
    let mut connection = String::new();
    push_str(&mut connection, username);
    push_char(&mut connection, '@');
    push_str(&mut connection, host);
    let conn = chars_of(connection.as_str());
    let conn_len = conn.len();
    let path_max: usize = if conn_len < width {
        width - conn_len - 1
    } else {
        0
    };
    let v = chars_of(current_path);
    let n = v.len();
    let path = if n > path_max && path_max > 3 {
        let mut p = String::new();
        push_str(&mut p, "...");
        proof {
            reveal_strlit("...");
        }
        let tail = string_from_range(v.as_slice(), n - (path_max - 3), n);
        push_str(&mut p, tail.as_str());
        assert(p@ == seq!['.', '.', '.'] + v@.skip(n - (path_max - 3)));
        p
    } else if path_max == 0 {
        String::new()
    } else {
        string_from_range(v.as_slice(), 0, n)
    };
    let shown = chars_of(path.as_str());
    let shown_len = shown.len();
    let padding: usize = if shown_len <= width && conn_len <= width - shown_len {
        width - shown_len - conn_len
    } else {
        0
    };
    HeaderView { path, padding, connection }
}

/// When the terminal leaves room for `user@host`, a space and more than
/// three characters of path, the header fills exactly the width: the path
/// is cut to the room it has.
pub proof fn law_header_fills_width(path: Seq<char>, conn: Seq<char>, width: nat)
    requires
        width >= conn.len() + 5,
    ensures
        ({
            let shown = header_path(path, sat_sub(width as int, conn.len() + 1nat));
            shown.len() + conn.len() < width && shown.len() + sat_sub(
                width as int,
                shown.len() + conn.len(),
            ) + conn.len() == width
        }),
{
}

/// The marker of an entry's type in the file list.
pub open spec fn type_indicator(t: EntryType) -> Seq<char> {
    match t {
        EntryType::Directory => seq!['d', ' '],
        EntryType::Symlink => seq!['@', ' '],
        EntryType::File => seq![' ', ' '],
    }
}

/// `s` followed by spaces up to `w` characters.
pub open spec fn pad_right(s: Seq<char>, w: nat) -> Seq<char> {
    if s.len() >= w {
        s
    } else {
        s + Seq::new((w - s.len()) as nat, |i: int| ' ')
    }
}

/// The name column of a row `width` characters wide whose size text has
/// `size_len` characters: the cursor marker, the type marker, two spaces
/// before the size and the size take their room, and the name is cut to
/// what is left (10 when nothing is) and padded to it. The name is measured
/// in characters, as the terminal shows it, so a name with multi-byte
/// characters is padded to the same column as any other.
pub open spec fn row_name(name: Seq<char>, size_len: nat, width: nat) -> Seq<char> {
    let reserved = 6 + size_len;
    let t = truncated(name, if width > reserved { (width - reserved) as nat } else { 10 });
    pad_right(t, if width > reserved { (width - reserved) as nat } else { t.len() })
}

/// A row of the file list.
pub struct BrowserRow {
    pub entry_type: EntryType,
    pub indicator: String,
    pub name: String,
    pub size: String,
}

/// The view of a row as its three texts.
pub open spec fn row_texts(r: BrowserRow) -> (Seq<char>, Seq<char>, Seq<char>) {
    (r.indicator@, r.name@, r.size@)
}

/// The texts of the row of `e` in a list `width` characters wide.
pub open spec fn row_of(e: DirectoryEntry, width: nat) -> (Seq<char>, Seq<char>, Seq<char>) {
    (
        type_indicator(e.entry_type),
        row_name(e.name@, size_text(e.size).len(), width),
        seq![' ', ' '] + size_text(e.size),
    )
}

/// Appends `k` spaces.
fn push_spaces(s: &mut String, k: usize)
    ensures
        final(s)@ == old(s)@ + Seq::new(k as nat, |i: int| ' '),
{
    let mut i: usize = 0;
    while i < k
        invariant
            i <= k,
            s@ == old(s)@ + Seq::new(i as nat, |j: int| ' '),
        decreases k - i,
    {
        push_char(s, ' ');
        assert(Seq::new((i + 1) as nat, |j: int| ' ') == Seq::new(i as nat, |j: int| ' ').push(' '));
        i = i + 1;
    }
}

/// The row of `entry` in a list `width` characters wide.
pub fn browser_row(entry: &DirectoryEntry, width: usize) -> (r: BrowserRow)
    ensures
        r.entry_type == entry.entry_type,
        row_texts(r) == row_of(*entry, width as nat),
{
    let size_str = format_size(entry.size);
    let size_chars = chars_of(size_str.as_str());
    let size_len = size_chars.len();
    let room: usize = if size_len < width && width - size_len > 6 {
        width - size_len - 6
    } else {
        0
    };
    let name_max: usize = if room > 0 {
        room
    } else {
        10
    };
    let t = truncate_name(entry.name.as_str(), name_max);
    let tv = chars_of(t.as_str());
    let mut name = String::new();
    push_chars(&mut name, tv.as_slice());
    if room > tv.len() {
        push_spaces(&mut name, room - tv.len());
    }
    let mut size = String::new();
    push_char(&mut size, ' ');
    push_char(&mut size, ' ');
    push_str(&mut size, size_str.as_str());
    assert(size@ == seq![' ', ' '] + size_text(entry.size));
    let indicator = match entry.entry_type {
        EntryType::Directory => {
            let mut s = String::new();
            push_char(&mut s, 'd');
            push_char(&mut s, ' ');
            s
        },
        EntryType::Symlink => {
            let mut s = String::new();
            push_char(&mut s, '@');
            push_char(&mut s, ' ');
            s
        },
        EntryType::File => {
            let mut s = String::new();
            push_char(&mut s, ' ');
            push_char(&mut s, ' ');
            s
        },
    };
    assert(indicator@ == type_indicator(entry.entry_type));
    BrowserRow { entry_type: entry.entry_type, indicator, name, size }
}

/// The rows of `entries` in a list `width` characters wide, in order.
pub fn browser_rows(entries: &[DirectoryEntry], width: usize) -> (r: Vec<BrowserRow>)
    ensures
        r@.len() == entries@.len(),
        forall|i: int|
            0 <= i < entries@.len() ==> #[trigger] row_texts(r@[i]) == row_of(entries@[i], width as nat)
                && r@[i].entry_type == entries@[i].entry_type,
{
    let mut rows: Vec<BrowserRow> = Vec::new();
    let mut i: usize = 0;
    while i < entries.len()
        invariant
            i <= entries@.len(),
            rows@.len() == i,
            forall|j: int| 0 <= j < i ==> #[trigger] row_texts(rows@[j]) == row_of(entries@[j], width as nat),
            forall|j: int| 0 <= j < i ==> (#[trigger] rows@[j]).entry_type == entries@[j].entry_type,
        decreases entries@.len() - i,
    {
        let row = browser_row(&entries[i], width);
        let ghost before = rows@;
        rows.push(row);
        assert(rows@ == before.push(row));
        i = i + 1;
    }
    rows
}

/// What a file list shows.
pub enum BrowserView {
    /// The message that the list has no entries.
    Empty(String),
    /// One row per entry.
    Rows(Vec<BrowserRow>),
}

/// The message shown for a list without entries.
pub open spec fn empty_directory_text() -> Seq<char> {
    "Empty directory"@
}

/// The file list of `entries`, `width` characters wide: the message that it
/// is empty when there are no entries, else their rows in order.
pub fn browser_view(entries: &[DirectoryEntry], width: usize) -> (r: BrowserView)
    ensures
        entries@.len() == 0 ==> (r matches BrowserView::Empty(t) && t@ == empty_directory_text()),
        entries@.len() > 0 ==> (r matches BrowserView::Rows(rows) && rows@.len() == entries@.len()
            && forall|i: int|
            0 <= i < entries@.len() ==> #[trigger] row_texts(rows@[i]) == row_of(entries@[i], width as nat)
                && rows@[i].entry_type == entries@[i].entry_type),
{
    if entries.len() == 0 {
        let mut t = String::new();
        push_str(&mut t, "Empty directory");
        BrowserView::Empty(t)
    } else {
        BrowserView::Rows(browser_rows(entries, width))
    }
}

/// A key binding shown in the footer: the key and what it does.
pub struct KeyHint {
    pub key: String,
    pub action: String,
}

/// The texts of a key hint.
pub open spec fn hint_texts(h: KeyHint) -> (Seq<char>, Seq<char>) {
    (h.key@, h.action@)
}

/// The key bindings the footer lists, in order.
pub open spec fn key_hint_list() -> Seq<(Seq<char>, Seq<char>)> {
    seq![
        ("q"@, ": quit  "@),
        ("o"@, ": open  "@),
        ("c"@, ": copy  "@),
        ("^F"@, ": find  "@),
        ("^G"@, ": global find  "@),
        ("m"@, ": navigate  "@),
        ("a"@, ": toggle hidden"@),
    ]
}

/// Appends the hint `key`, `action` to `hints`.
fn push_hint(hints: &mut Vec<KeyHint>, key: &str, action: &str)
    ensures
        final(hints)@.len() == old(hints)@.len() + 1,
        forall|i: int| 0 <= i < old(hints)@.len() ==> #[trigger] final(hints)@[i] == old(hints)@[i],
        hint_texts(final(hints)@[old(hints)@.len() as int]) == (key@, action@),
{
    let mut k = String::new();
    push_str(&mut k, key);
    let mut a = String::new();
    push_str(&mut a, action);
    hints.push(KeyHint { key: k, action: a });
}

/// The key bindings the footer lists.
pub fn key_hints() -> (r: Vec<KeyHint>)
    ensures
        r@.map_values(|h: KeyHint| hint_texts(h)) == key_hint_list(),
{
    let mut r: Vec<KeyHint> = Vec::new();
    push_hint(&mut r, "q", ": quit  ");
    push_hint(&mut r, "o", ": open  ");
    push_hint(&mut r, "c", ": copy  ");
    push_hint(&mut r, "^F", ": find  ");
    push_hint(&mut r, "^G", ": global find  ");
    push_hint(&mut r, "m", ": navigate  ");
    push_hint(&mut r, "a", ": toggle hidden");
    assert(r@.map_values(|h: KeyHint| hint_texts(h)) =~= key_hint_list());
    r
}

/// The loading indicator.
pub open spec fn loading_text() -> Seq<char> {
    "⏳ Loading..."@
}

/// What the footer shows.
pub enum FooterView {
    /// The loading indicator.
    Loading(String),
    /// A status message, coloured by its level.
    Status { text: String, level: StatusLevel },
    /// The key bindings.
    KeyHints(Vec<KeyHint>),
}

/// The footer: the loading indicator while loading, else the status
/// message if there is one, else the key bindings.
pub fn footer_view(status: Option<&StatusMessage>, loading: bool) -> (r: FooterView)
    ensures
        loading ==> (r matches FooterView::Loading(t) && t@ == loading_text()),
        !loading ==> match status {
            Some(m) => r matches FooterView::Status { text, level } && text@ == m.text@ && level
                == m.level,
            None => r matches FooterView::KeyHints(h) && h@.map_values(|x: KeyHint| hint_texts(x))
                == key_hint_list(),
        },
{
    if loading {
        let mut t = String::new();
        push_str(&mut t, "⏳ Loading...");
        FooterView::Loading(t)
    } else {
        match status {
            Some(m) => FooterView::Status { text: crate::text::copy_string(&m.text), level: m.level },
            None => FooterView::KeyHints(key_hints()),
        }
    }
}

/// What the main area shows.
pub enum MainView {
    /// The entries of the current directory, with the cursor.
    Entries,
    /// The search results, with their cursor.
    Results,
    /// The message that a search found nothing.
    NoResults(String),
    /// The message that there are no search results to show.
    NoSearch(String),
}

/// The message shown when a search for `query` found nothing.
pub open spec fn no_results_text(query: Seq<char>) -> Seq<char> {
    "No results found for '"@ + query + "'"@
}

/// The main area: the search results (or why there are none) while they
/// are shown, the directory entries otherwise.
pub fn main_view(app: &App) -> (r: MainView)
    ensures
        app.mode is SearchResults ==> match app.search_state {
            Some(st) => if st.results@.len() == 0 {
                r matches MainView::NoResults(t) && t@ == no_results_text(st.query@)
            } else {
                r is Results
            },
            None => r matches MainView::NoSearch(t) && t@ == "No search results"@,
        },
        !(app.mode is SearchResults) ==> r is Entries,
{
    match app.mode {
        AppMode::SearchResults => match &app.search_state {
            Some(st) => if st.results.len() == 0 {
                let mut t = String::new();
                push_str(&mut t, "No results found for '");
                push_str(&mut t, st.query.as_str());
                push_str(&mut t, "'");
                MainView::NoResults(t)
            } else {
                MainView::Results
            },
            None => {
                let mut t = String::new();
                push_str(&mut t, "No search results");
                MainView::NoSearch(t)
            },
        },
        _ => MainView::Entries,
    }
}

/// What the prompt under the list shows.
pub enum PromptView {
    /// No prompt.
    Hidden,
    /// The search label and the query typed so far.
    SearchInput { label: String, query: String },
    /// The search label and how many directories have been searched.
    SearchProgress(String),
    /// The copy destination typed so far.
    CopyInput(String),
    /// The question whether to overwrite.
    Overwrite(String),
    /// The progress of a copy.
    CopyProgress(String),
    /// The path typed so far in the navigate prompt.
    NavigateInput(String),
    /// The directory to download and its size.
    DirectoryConfirm { path: String, size: String },
}

/// The label of the search prompt.
pub open spec fn search_label(t: SearchType) -> Seq<char> {
    match t {
        SearchType::Local => "Find (local): "@,
        SearchType::Global => "Find (global): "@,
    }
}

/// The text shown while a search runs.
pub open spec fn search_progress_text(t: SearchType, dirs: usize) -> Seq<char> {
    search_label(t) + "Searching... ("@ + decimal(dirs as nat) + " directories traversed)"@
}

/// The question asked before overwriting `path`.
pub open spec fn overwrite_text(path: Seq<char>) -> Seq<char> {
    "File exists. Overwrite? (y/n): "@ + path
}

/// The progress of a copy.
pub open spec fn copy_progress_text(bytes: u64) -> Seq<char> {
    "Copying... "@ + size_text(bytes) + " transferred"@
}

/// The text typed in a prompt, or nothing when there is none.
pub open spec fn typed(s: Option<Seq<char>>) -> Seq<char> {
    match s {
        Some(t) => t,
        None => Seq::empty(),
    }
}

/// What the prompt shows in the state `app`, as texts.
pub open spec fn prompt_shown(app: App, p: PromptView) -> bool {
    let query = typed(
        match app.search_state {
            Some(st) => Some(st.query@),
            None => None,
        },
    );
    match app.mode {
        AppMode::SearchPrompt { search_type } => p matches PromptView::SearchInput { label, query: q }
            && label@ == search_label(search_type) && q@ == query,
        AppMode::Searching { search_type, progress } => p matches PromptView::SearchProgress(t)
            && t@ == search_progress_text(search_type, progress),
        AppMode::PathPrompt => p matches PromptView::CopyInput(t) && t@ == typed(
            match app.path_prompt_state {
                Some(s) => Some(s.input@),
                None => None,
            },
        ),
        AppMode::OverwriteConfirm { path } => p matches PromptView::Overwrite(t) && t@
            == overwrite_text(path@),
        AppMode::Copying { bytes_transferred } => p matches PromptView::CopyProgress(t) && t@
            == copy_progress_text(bytes_transferred),
        AppMode::NavigatePrompt => p matches PromptView::NavigateInput(t) && t@ == typed(
            match app.navigate_prompt_state {
                Some(s) => Some(s.input@),
                None => None,
            },
        ),
        AppMode::DirectoryCopyConfirm { path, size } => p matches PromptView::DirectoryConfirm {
            path: t,
            size: z,
        } && t@ == "Path: "@ + path@ && z@ == "  Size: "@ + size_text(size),
        _ => p is Hidden,
    }
}

/// The search label as a string.
fn search_label_string(t: SearchType) -> (s: String)
    ensures
        s@ == search_label(t),
{
    let mut s = String::new();
    match t {
        SearchType::Local => push_str(&mut s, "Find (local): "),
        SearchType::Global => push_str(&mut s, "Find (global): "),
    }
    s
}

/// The prompt under the list in the state `app`.
pub fn prompt_view(app: &App) -> (r: PromptView)
    ensures
        prompt_shown(*app, r),
{
    match &app.mode {
        AppMode::SearchPrompt { search_type } => {
            let label = search_label_string(*search_type);
            let mut query = String::new();
            match &app.search_state {
                Some(st) => push_str(&mut query, st.query.as_str()),
                None => {},
            }
            PromptView::SearchInput { label, query }
        },
        AppMode::Searching { search_type, progress } => {
            let mut t = search_label_string(*search_type);
            push_str(&mut t, "Searching... (");
            push_decimal(&mut t, *progress as u128);
            push_str(&mut t, " directories traversed)");
            PromptView::SearchProgress(t)
        },
        AppMode::PathPrompt => {
            let mut t = String::new();
            match &app.path_prompt_state {
                Some(s) => push_str(&mut t, s.input.as_str()),
                None => {},
            }
            PromptView::CopyInput(t)
        },
        AppMode::OverwriteConfirm { path } => {
            let mut t = String::new();
            push_str(&mut t, "File exists. Overwrite? (y/n): ");
            push_str(&mut t, path.as_str());
            PromptView::Overwrite(t)
        },
        AppMode::Copying { bytes_transferred } => {
            let mut t = String::new();
            push_str(&mut t, "Copying... ");
            let size = format_size(*bytes_transferred);
            push_str(&mut t, size.as_str());
            push_str(&mut t, " transferred");
            PromptView::CopyProgress(t)
        },
        AppMode::NavigatePrompt => {
            let mut t = String::new();
            match &app.navigate_prompt_state {
                Some(s) => push_str(&mut t, s.input.as_str()),
                None => {},
            }
            PromptView::NavigateInput(t)
        },
        AppMode::DirectoryCopyConfirm { path, size } => {
            let mut t = String::new();
            push_str(&mut t, "Path: ");
            push_str(&mut t, path.as_str());
            let mut z = String::new();
            push_str(&mut z, "  Size: ");
            let s = format_size(*size);
            push_str(&mut z, s.as_str());
            PromptView::DirectoryConfirm { path: t, size: z }
        },
        _ => PromptView::Hidden,
    }
}

/// The frame and fixed texts of a prompt: its title, the label before
/// what is typed, the cursor after it, and the key hint at the end (each
/// empty where the prompt has none).
pub struct PromptDecor {
    pub title: String,
    pub label: String,
    pub cursor: String,
    pub hint: String,
}

/// The title, label, cursor and hint of the prompt `p`.
pub open spec fn decor_texts(p: PromptView) -> (Seq<char>, Seq<char>, Seq<char>, Seq<char>) {
    match p {
        PromptView::Hidden => (Seq::empty(), Seq::empty(), Seq::empty(), Seq::empty()),
        PromptView::SearchInput { .. } => (" Search "@, Seq::empty(), "█"@, Seq::empty()),
        PromptView::SearchProgress(_) => (" Search "@, Seq::empty(), Seq::empty(), Seq::empty()),
        PromptView::CopyInput(_) => (" Copy File "@, "Copy to: "@, "█"@, Seq::empty()),
        PromptView::Overwrite(_) => (" Copy File "@, Seq::empty(), Seq::empty(), Seq::empty()),
        PromptView::CopyProgress(_) => (" Copy File "@, Seq::empty(), Seq::empty(), Seq::empty()),
        PromptView::NavigateInput(_) => (" Go To Path "@, "Navigate to: "@, "▌"@, Seq::empty()),
        PromptView::DirectoryConfirm { .. } => (
            " Download Directory "@,
            Seq::empty(),
            Seq::empty(),
            "  [y] confirm  [n/Esc] cancel"@,
        ),
    }
}

/// The frame and fixed texts of the prompt `p`.
pub fn prompt_decor(p: &PromptView) -> (r: PromptDecor)
    ensures
        (r.title@, r.label@, r.cursor@, r.hint@) == decor_texts(*p),
{
    let mut title = String::new();
    let mut label = String::new();
    let mut cursor = String::new();
    let mut hint = String::new();
    match p {
        PromptView::Hidden => {},
        PromptView::SearchInput { .. } => {
            push_str(&mut title, " Search ");
            push_str(&mut cursor, "█");
        },
        PromptView::SearchProgress(_) => {
            push_str(&mut title, " Search ");
        },
        PromptView::CopyInput(_) => {
            push_str(&mut title, " Copy File ");
            push_str(&mut label, "Copy to: ");
            push_str(&mut cursor, "█");
        },
        PromptView::Overwrite(_) => {
            push_str(&mut title, " Copy File ");
        },
        PromptView::CopyProgress(_) => {
            push_str(&mut title, " Copy File ");
        },
        PromptView::NavigateInput(_) => {
            push_str(&mut title, " Go To Path ");
            push_str(&mut label, "Navigate to: ");
            push_str(&mut cursor, "▌");
        },
        PromptView::DirectoryConfirm { .. } => {
            push_str(&mut title, " Download Directory ");
            push_str(&mut hint, "  [y] confirm  [n/Esc] cancel");
        },
    }
    PromptDecor { title, label, cursor, hint }
}

} // verus!
