//! What the SSH client computes around its remote calls: error kinds and
//! their texts, shell commands, and the parsing of `ls -la`, `du -sb` and
//! `find` output.
use vstd::prelude::*;

use crate::paths::{joined_path, join_chars, file_name_of, path_file_name};
use crate::text::{
    chars_of, char_views, contains_seq, find_chars, first_occurrence, join_from, join_with,
    push_chars, push_str, split_on, lemma_split_on_step, starts_with, string_from_chars, trim,
    trim_bounds, words, words_of, push_char, push_decimal, decimal, chars_equal, occurs_at, contains_chars, no_ws, is_ws,
    lemma_first_word, lemma_trim_end_prefix, trim_start, trim_end, digit_char, single_spaced,
    lemma_single_spaced_words, lemma_words_concat, lemma_words_word, lemma_words_nothing,
    lemma_trim_padded, lemma_split_on_extend,
};
use crate::types::{DirectoryEntry, EntryType};

verus! {

broadcast use vstd::string::group_string_axioms;

/// Errors that can occur during SSH operations.
#[derive(Debug)]
pub enum SshError {
    ConnectionFailed(String),
    AuthenticationFailed(String),
    Timeout,
    /// Access to this path was refused.
    PermissionDenied(String),
    ConnectionLost,
    /// A local or transport I/O failure (its description).
    IoError(String),
}

/// The text shown for an SSH error.
pub open spec fn ssh_error_text(e: SshError) -> Seq<char> {
    match e {
        SshError::ConnectionFailed(m) => "Connection failed: "@ + m@,
        SshError::AuthenticationFailed(m) => "Authentication failed: "@ + m@,
        SshError::Timeout => "Operation timed out"@,
        SshError::PermissionDenied(p) => "Permission denied: "@ + p@,
        SshError::ConnectionLost => "Connection lost"@,
        SshError::IoError(m) => "I/O error: "@ + m@,
    }
}

impl SshError {
    /// The text shown for this error.
    pub fn message(&self) -> (r: String)
        ensures
            r@ == ssh_error_text(*self),
    {
        let mut r = String::new();
        match self {
            SshError::ConnectionFailed(m) => {
                push_str(&mut r, "Connection failed: ");
                push_str(&mut r, m.as_str());
            },
            SshError::AuthenticationFailed(m) => {
                push_str(&mut r, "Authentication failed: ");
                push_str(&mut r, m.as_str());
            },
            SshError::Timeout => {
                push_str(&mut r, "Operation timed out");
            },
            SshError::PermissionDenied(p) => {
                push_str(&mut r, "Permission denied: ");
                push_str(&mut r, p.as_str());
            },
            SshError::ConnectionLost => {
                push_str(&mut r, "Connection lost");
            },
            SshError::IoError(m) => {
                push_str(&mut r, "I/O error: ");
                push_str(&mut r, m.as_str());
            },
        }
        r
    }

    /// The error for a failed I/O operation: a timeout when the failure was
    /// one, otherwise an I/O error with the failure's description.
    pub fn from_io(timed_out: bool, description: String) -> (r: SshError)
        ensures
            timed_out ==> r is Timeout,
            !timed_out ==> r == SshError::IoError(description),
    {
        if timed_out {
            SshError::Timeout
        } else {
            SshError::IoError(description)
        }
    }
}

/// `s` with every single quote written as `'\''`.
pub open spec fn escape_quotes(s: Seq<char>) -> Seq<char>
    decreases s.len(),
{
    if s.len() == 0 {
        Seq::empty()
    } else {
        escape_quotes(s.drop_last()) + (if s.last() == '\'' {
            seq!['\'', '\\', '\'', '\'']
        } else {
            seq![s.last()]
        })
    }
}

/// `s` as a single-quoted shell word.
pub open spec fn quoted(s: Seq<char>) -> Seq<char> {
    seq!['\''] + escape_quotes(s) + seq!['\'']
}

/// Appends `escape_quotes(s)` to `r`.
fn push_escaped(r: &mut String, s: &str)
    ensures
        final(r)@ == old(r)@ + escape_quotes(s@),
{
    let v = chars_of(s);
    let ghost start = r@;
    let mut i: usize = 0;
    assert(v@.take(0) =~= Seq::<char>::empty());
    while i < v.len()
        invariant
            i <= v@.len(),
            r@ == start + escape_quotes(v@.take(i as int)),
        decreases v@.len() - i,
    {
        assert(v@.take(i + 1).drop_last() == v@.take(i as int));
        if v[i] == '\'' {
            push_char(r, '\'');
            push_char(r, '\\');
            push_char(r, '\'');
            push_char(r, '\'');
        } else {
            push_char(r, v[i]);
        }
        i = i + 1;
    }
    assert(v@.take(v@.len() as int) == v@);
}

/// Simple shell escaping for a path used in a remote command.
pub fn shell_escape(s: &str) -> (r: String)
    ensures
        r@ == quoted(s@),
{
    let mut r = String::new();
    push_char(&mut r, '\'');
    push_escaped(&mut r, s);
    push_char(&mut r, '\'');
    r
}

/// The remote command that searches `base` for names containing `pattern`.
pub fn find_command(base: &str, pattern: &str) -> (r: String)
    ensures
        r@ == "find "@ + quoted(base@) + " -name '*"@ + escape_quotes(pattern@) + "*' 2>/dev/null"@,
{
    let mut r = String::new();
    push_str(&mut r, "find ");
    let q = shell_escape(base);
    push_str(&mut r, q.as_str());
    push_str(&mut r, " -name '*");
    push_escaped(&mut r, pattern);
    push_str(&mut r, "*' 2>/dev/null");
    r
}

/// The remote command that measures the total size of `path`.
pub fn du_command(path: &str) -> (r: String)
    ensures
        r@ == "du -sb "@ + quoted(path@),
{
    let mut r = String::new();
    push_str(&mut r, "du -sb ");
    let q = shell_escape(path);
    push_str(&mut r, q.as_str());
    r
}

/// Whether a refused SFTP request is tried again with `sudo`: only when
/// the configuration turns sudo on and the error is a refusal of access.
pub fn retry_with_sudo(err: &SshError, use_sudo: bool) -> (r: bool)
    ensures
        r == (use_sudo && *err is PermissionDenied),
{
    use_sudo && match err {
        SshError::PermissionDenied(_) => true,
        _ => false,
    }
}

/// The remote command that reads `path` with elevated rights.
pub fn sudo_cat_command(path: &str) -> (r: String)
    ensures
        r@ == "sudo cat "@ + quoted(path@),
{
    let mut r = String::new();
    push_str(&mut r, "sudo cat ");
    let q = shell_escape(path);
    push_str(&mut r, q.as_str());
    r
}

/// The remote command that lists `path` with elevated rights.
pub fn sudo_ls_command(path: &str) -> (r: String)
    ensures
        r@ == "LC_ALL=C sudo ls -la "@ + quoted(path@),
{
    let mut r = String::new();
    push_str(&mut r, "LC_ALL=C sudo ls -la ");
    let q = shell_escape(path);
    push_str(&mut r, q.as_str());
    r
}

/// Whether `c` is an ASCII digit.
pub open spec fn is_digit(c: char) -> bool {
    '0' <= c <= '9'
}

/// `s` without a leading `+`.
pub open spec fn unsigned_part(s: Seq<char>) -> Seq<char> {
    if s.len() > 0 && s[0] == '+' {
        s.drop_first()
    } else {
        s
    }
}

/// Whether every character of `s` is an ASCII digit.
pub open spec fn all_digits(s: Seq<char>) -> bool {
    forall|i: int| 0 <= i < s.len() ==> is_digit(#[trigger] s[i])
}

/// The value of a string of ASCII digits.
pub open spec fn digits_value(s: Seq<char>) -> nat
    decreases s.len(),
{
    if s.len() == 0 {
        0
    } else {
        digits_value(s.drop_last()) * 10 + ((s.last() as int) - ('0' as int)) as nat
    }
}

/// What `str::parse::<u64>` gives: an optional `+` followed by at least one
/// ASCII digit, with a value that fits.
pub open spec fn parse_u64(s: Seq<char>) -> Option<u64> {
    let d = unsigned_part(s);
    if d.len() > 0 && all_digits(d) && digits_value(d) <= u64::MAX {
        Some(digits_value(d) as u64)
    } else {
        None
    }
}

/// Parses `v` as a `u64` the way `str::parse` does.
pub fn parse_u64_chars(v: &[char]) -> (r: Option<u64>)
    ensures
        r == parse_u64(v@),
{
    let start: usize = if v.len() > 0 && v[0] == '+' {
        1
    } else {
        0
    };
    let ghost d = unsigned_part(v@);
    assert(d == v@.skip(start as int));
    if start == v.len() {
        return None;
    }
    let mut acc: u128 = 0;
    let mut i = start;
    assert(v@.subrange(start as int, start as int) =~= Seq::<char>::empty());
    while i < v.len()
        invariant
            start <= i <= v@.len(),
            d == unsigned_part(v@),
            d == v@.skip(start as int),
            acc == digits_value(v@.subrange(start as int, i as int)),
            acc <= u64::MAX,
            forall|k: int| start <= k < i ==> is_digit(#[trigger] v@[k]),
        decreases v@.len() - i,
    {
        let c = v[i];
        if !('0' <= c && c <= '9') {
            assert(d[i - start] == c);
            assert(!is_digit(d[i - start]));
            assert(!all_digits(d));
            return None;
        }
        let dv = (c as u32 - '0' as u32) as u128;
        assert(v@.subrange(start as int, i + 1).drop_last() == v@.subrange(start as int, i as int));
        acc = acc * 10 + dv;
        if acc > 18446744073709551615u128 {
            proof {
                if all_digits(d) {
                    lemma_digits_value_grows(d, i + 1 - start);
                    assert(d.take(i + 1 - start) == v@.subrange(start as int, i + 1));
                }
            }
            return None;
        }
        i = i + 1;
    }
    assert(v@.subrange(start as int, v@.len() as int) == d);
    Some(acc as u64)
}

/// Extending a digit string never lowers its value.
proof fn lemma_digits_value_grows(s: Seq<char>, k: int)
    requires
        0 <= k <= s.len(),
        forall|i: int| 0 <= i < s.len() ==> is_digit(#[trigger] s[i]),
    ensures
        digits_value(s.take(k)) <= digits_value(s),
    decreases s.len() - k,
{
    if k < s.len() {
        lemma_digits_value_grows(s, k + 1);
        assert(s.take(k + 1).drop_last() == s.take(k));
        assert(is_digit(s[k]));
    } else {
        assert(s.take(k) == s);
    }
}

/// The first whitespace-free run at the start of `s`.
pub open spec fn leading_word(s: Seq<char>) -> Seq<char> {
    if words(s).len() > 0 {
        words(s)[0]
    } else {
        Seq::empty()
    }
}

/// What parsing the output of `du -sb` gives: the size in its first field.
pub open spec fn du_outcome(output: Seq<char>) -> Result<u64, Seq<char>> {
    let t = trim(output);
    if t.len() == 0 {
        Err("Could not determine directory size: empty output"@)
    } else {
        match parse_u64(leading_word(t)) {
            Some(n) => Ok(n),
            None => Err("Could not parse directory size from: "@ + leading_word(t)),
        }
    }
}

/// The outcome that a `du` parse result stands for.
pub open spec fn du_result_view(r: Result<u64, SshError>) -> Result<u64, Seq<char>> {
    match r {
        Ok(n) => Ok(n),
        Err(SshError::ConnectionFailed(m)) => Err(m@),
        Err(_) => Err(seq!['?', '?']),
    }
}

/// Parse the output of `du -sb` and return the byte count.
///
/// Expects the first whitespace-delimited token to be a valid u64.
/// Returns `SshError::ConnectionFailed` if the output is empty or unparseable.
pub fn parse_du_output(output: &str) -> (r: Result<u64, SshError>)
    ensures
        r is Ok || r is Err && r->Err_0 is ConnectionFailed,
        du_result_view(r) == du_outcome(output@),
{
    let v = chars_of(output);
    let (lo, hi) = trim_bounds(v.as_slice(), 0, v.len());
    assert(v@.subrange(0, v@.len() as int) == v@);
    if lo == hi {
        let mut m = String::new();
        push_str(&mut m, "Could not determine directory size: empty output");
        return Err(SshError::ConnectionFailed(m));
    }
    let mut t: Vec<char> = Vec::new();
    let mut i = lo;
    while i < hi
        invariant
            lo <= i <= hi <= v@.len(),
            t@ == v@.subrange(lo as int, i as int),
        decreases hi - i,
    {
        t.push(v[i]);
        assert(v@.subrange(lo as int, i + 1) == v@.subrange(lo as int, i as int).push(v@[i as int]));
        i = i + 1;
    }
    let ws = words_of(t.as_slice());
    let token: Vec<char> = if ws.len() > 0 {
        let w = &ws[0];
        let mut c: Vec<char> = Vec::new();
        let mut k: usize = 0;
        while k < w.len()
            invariant
                k <= w@.len(),
                c@ == w@.take(k as int),
            decreases w@.len() - k,
        {
            c.push(w[k]);
            assert(w@.take(k + 1) == w@.take(k as int).push(w@[k as int]));
            k = k + 1;
        }
        assert(w@.take(w@.len() as int) == w@);
        assert(char_views(ws@)[0] == w@);
        c
    } else {
        Vec::new()
    };
    match parse_u64_chars(token.as_slice()) {
        Some(n) => Ok(n),
        None => {
            let mut m = String::new();
            push_str(&mut m, "Could not parse directory size from: ");
            push_chars(&mut m, token.as_slice());
            Err(SshError::ConnectionFailed(m))
        },
    }
}

/// The digit for `d` is worth `d`.
pub proof fn lemma_digit_char_value(d: nat)
    requires
        d < 10,
    ensures
        (digit_char(d) as int) - ('0' as int) == d,
        is_digit(digit_char(d)),
{
}

/// The decimal rendering of `n` is a run of digits worth `n`.
pub proof fn lemma_decimal_digits(n: nat)
    ensures
        decimal(n).len() > 0,
        all_digits(decimal(n)),
        no_ws(decimal(n)),
        digits_value(decimal(n)) == n,
    decreases n,
{
    let d = decimal(n);
    lemma_digit_char_value(n % 10);
    if n < 10 {
        assert(d[0] == digit_char(n));
        assert(d.drop_last() =~= Seq::<char>::empty());
        assert(d.last() == digit_char(n));
        assert(digits_value(d.drop_last()) == 0);
        assert(digits_value(d) == digits_value(d.drop_last()) * 10 + ((d.last() as int) - ('0' as int)) as nat);
    } else {
        lemma_decimal_digits(n / 10);
        let p = decimal(n / 10);
        assert(d == p.push(digit_char(n % 10)));
        assert(d.drop_last() =~= p);
        assert(d.last() == digit_char(n % 10));
        assert(n == (n / 10) * 10 + n % 10);
        assert(digits_value(d) == digits_value(d.drop_last()) * 10 + ((d.last() as int) - ('0' as int)) as nat);
        assert forall|i: int| 0 <= i < d.len() implies is_digit(#[trigger] d[i]) by {
            if i < p.len() {
                assert(d[i] == p[i]);
            }
        }
        assert forall|i: int| 0 <= i < d.len() implies !is_ws(#[trigger] d[i]) by {
            if i < p.len() {
                assert(d[i] == p[i]);
                assert(is_digit(p[i]));
            }
        }
    }
}

/// A `du -sb` line, the size in decimal, a tab and then anything, parses
/// back to that size.
pub proof fn law_du_round_trip(n: u64, p: Seq<char>)
    ensures
        du_outcome(decimal(n as nat) + seq!['\t'] + p) == Ok::<u64, Seq<char>>(n),
{
    let d = decimal(n as nat);
    lemma_decimal_digits(n as nat);
    let x = d + seq!['\t'] + p;
    assert(x[0] == d[0]);
    assert(is_digit(d[0]));
    assert(trim_start(x) == x);
    assert(x[d.len() - 1] == d[d.len() - 1]);
    assert(is_digit(d[d.len() - 1]));
    lemma_trim_end_prefix(x, d.len() as int);
    let t = trim_end(x);
    let y = t.skip(d.len() as int);
    assert(t.take(d.len() as int) =~= d);
    assert(t =~= d + y);
    if y.len() > 0 {
        assert(y[0] == x[d.len() as int]);
    }
    lemma_first_word(d, y);
    assert(leading_word(t) == d);
    assert(unsigned_part(d) == d);
}

/// The name, path, type and size of an entry.
pub open spec fn entry_parts(e: DirectoryEntry) -> (Seq<char>, Seq<char>, EntryType, u64) {
    (e.name@, e.path@, e.entry_type, e.size)
}

/// The entry type that an `ls -l` mode field denotes.
pub open spec fn ls_type(mode: Seq<char>) -> EntryType {
    if mode.len() > 0 && mode[0] == 'd' {
        EntryType::Directory
    } else if mode.len() > 0 && mode[0] == 'l' {
        EntryType::Symlink
    } else {
        EntryType::File
    }
}

/// The separator between a symlink's name and its target in `ls -l`.
pub open spec fn arrow() -> Seq<char> {
    seq![' ', '-', '>', ' ']
}

/// The `total` header line prefix of `ls -l`.
pub open spec fn total_prefix() -> Seq<char> {
    seq!['t', 'o', 't', 'a', 'l', ' ']
}

/// The position of the first occurrence of `needle` in `hay`.
pub open spec fn first_index_of(hay: Seq<char>, needle: Seq<char>) -> int {
    choose|i: int| first_occurrence(hay, needle, i)
}

/// There is only one first occurrence.
proof fn lemma_first_occurrence_unique(hay: Seq<char>, needle: Seq<char>, i: int, j: int)
    requires
        first_occurrence(hay, needle, i),
        first_occurrence(hay, needle, j),
    ensures
        i == j,
{
}

/// The name shown for an `ls -l` name field: for a symlink, the part before
/// ` -> `.
pub open spec fn ls_name(raw: Seq<char>, ty: EntryType) -> Seq<char> {
    if ty == EntryType::Symlink && contains_seq(raw, arrow()) {
        raw.take(first_index_of(raw, arrow()))
    } else {
        raw
    }
}

/// The entry that one line of `ls -la` output describes, if any: blank
/// lines, `total` lines, lines with fewer than nine fields or an unreadable
/// size, and the `.` and `..` entries give none.
pub open spec fn ls_line(line: Seq<char>, parent: Seq<char>) -> Option<
    (Seq<char>, Seq<char>, EntryType, u64),
> {
    let t = trim(line);
    let f = words(t);
    if t.len() == 0 || starts_with(t, total_prefix()) || f.len() < 9 {
        None
    } else {
        match parse_u64(f[4]) {
            None => None,
            Some(size) => {
                let ty = ls_type(f[0]);
                let name = ls_name(join_with(f.skip(8), ' '), ty);
                if name == seq!['.'] || name == seq!['.', '.'] {
                    None
                } else {
                    Some((name, joined_path(parent, name), ty, size))
                }
            },
        }
    }
}

/// The entries that a sequence of `ls -la` lines describes, in order.
pub open spec fn ls_entries(lines: Seq<Seq<char>>, parent: Seq<char>) -> Seq<
    (Seq<char>, Seq<char>, EntryType, u64),
>
    decreases lines.len(),
{
    if lines.len() == 0 {
        Seq::empty()
    } else {
        let prev = ls_entries(lines.drop_last(), parent);
        match ls_line(lines.last(), parent) {
            Some(e) => prev.push(e),
            None => prev,
        }
    }
}

/// The entries that an `ls -la` output describes.
pub open spec fn ls_la_listing(output: Seq<char>, parent: Seq<char>) -> Seq<
    (Seq<char>, Seq<char>, EntryType, u64),
> {
    ls_entries(split_on(output, '\n'), parent)
}

/// Whether `s` begins with the characters of `p`.
fn starts_with_chars(s: &[char], p: &[char]) -> (r: bool)
    ensures
        r == starts_with(s@, p@),
{
    if p.len() > s.len() {
        return false;
    }
    let mut i: usize = 0;
    while i < p.len()
        invariant
            p@.len() <= s@.len(),
            i <= p@.len(),
            forall|k: int| 0 <= k < i ==> s@[k] == p@[k],
        decreases p@.len() - i,
    {
        if s[i] != p[i] {
            assert(s@.take(p@.len() as int)[i as int] != p@[i as int]);
            return false;
        }
        i = i + 1;
    }
    assert(s@.take(p@.len() as int) =~= p@);
    true
}

/// The characters `v[lo..hi]`.
fn slice_chars(v: &[char], lo: usize, hi: usize) -> (r: Vec<char>)
    requires
        lo <= hi <= v@.len(),
    ensures
        r@ == v@.subrange(lo as int, hi as int),
{
    let mut r: Vec<char> = Vec::new();
    let mut i = lo;
    while i < hi
        invariant
            lo <= i <= hi <= v@.len(),
            r@ == v@.subrange(lo as int, i as int),
        decreases hi - i,
    {
        r.push(v[i]);
        assert(v@.subrange(lo as int, i + 1) == v@.subrange(lo as int, i as int).push(v@[i as int]));
        i = i + 1;
    }
    r
}

/// The entry described by the line `v[lo..hi]`, if any.
fn ls_line_entry(v: &[char], lo: usize, hi: usize, parent: &[char]) -> (r: Option<DirectoryEntry>)
    requires
        lo <= hi <= v@.len(),
    ensures
        r is None <==> ls_line(v@.subrange(lo as int, hi as int), parent@) is None,
        r matches Some(e) ==> ls_line(v@.subrange(lo as int, hi as int), parent@) == Some(
            entry_parts(e),
        ),
{
    let (a, b) = trim_bounds(v, lo, hi);
    let t = slice_chars(v, a, b);
    if t.len() == 0 {
        return None;
    }
    let total = vec!['t', 'o', 't', 'a', 'l', ' '];
    assert(total@ == total_prefix());
    if starts_with_chars(t.as_slice(), total.as_slice()) {
        return None;
    }
    let f = words_of(t.as_slice());
    if f.len() < 9 {
        return None;
    }
    let ghost fv = char_views(f@);
    assert(fv[4] == f@[4]@);
    assert(fv[0] == f@[0]@);
    let size = match parse_u64_chars(f[4].as_slice()) {
        None => {
            return None;
        },
        Some(n) => n,
    };
    let ty = if f[0].len() > 0 && f[0][0] == 'd' {
        EntryType::Directory
    } else if f[0].len() > 0 && f[0][0] == 'l' {
        EntryType::Symlink
    } else {
        EntryType::File
    };
    let raw = join_from(&f, 8, ' ');
    let arrow_chars = vec![' ', '-', '>', ' '];
    assert(arrow_chars@ == arrow());
    let name: Vec<char> = if ty == EntryType::Symlink {
        match find_chars(raw.as_slice(), arrow_chars.as_slice()) {
            Some(k) => {
                proof {
                    let j = first_index_of(raw@, arrow());
                    assert(first_occurrence(raw@, arrow(), k as int));
                    lemma_first_occurrence_unique(raw@, arrow(), j, k as int);
                }
                slice_chars(raw.as_slice(), 0, k)
            },
            None => slice_chars(raw.as_slice(), 0, raw.len()),
        }
    } else {
        slice_chars(raw.as_slice(), 0, raw.len())
    };
    assert(raw@.subrange(0, raw@.len() as int) == raw@);
    let dot = vec!['.'];
    let dotdot = vec!['.', '.'];
    assert(dot@ == seq!['.']);
    assert(dotdot@ == seq!['.', '.']);
    if chars_equal(name.as_slice(), dot.as_slice()) || chars_equal(
        name.as_slice(),
        dotdot.as_slice(),
    ) {
        return None;
    }
    let path = join_chars(parent, name.as_slice());
    Some(
        DirectoryEntry {
            name: string_from_chars(name.as_slice()),
            path: string_from_chars(path.as_slice()),
            entry_type: ty,
            size,
        },
    )
}

/// The mode field that `ls -l` prints for an entry of type `t` with
/// permissions `rw-r--r--`.
pub open spec fn ls_mode(t: EntryType) -> Seq<char> {
    seq![
        match t {
            EntryType::File => '-',
            EntryType::Directory => 'd',
            EntryType::Symlink => 'l',
        },
        'r',
        'w',
        '-',
        'r',
        '-',
        '-',
        'r',
        '-',
        '-',
    ]
}

/// What `ls -l` prints after the name of a symlink to `/dev/null`.
pub open spec fn ls_link_suffix() -> Seq<char> {
    seq![' ', '-', '>', ' ', '/', 'd', 'e', 'v', '/', 'n', 'u', 'l', 'l']
}

/// The name field of an `ls -l` line: the name, and the target of a
/// symlink.
pub open spec fn ls_name_field(name: Seq<char>, t: EntryType) -> Seq<char> {
    if t == EntryType::Symlink {
        name + ls_link_suffix()
    } else {
        name
    }
}

/// The `ls -la` line of an entry named `name` of type `t` and `size`
/// bytes, owned by `user:group` and dated Jan 1.
pub open spec fn ls_line_of(name: Seq<char>, t: EntryType, size: u64) -> Seq<char> {
    ls_mode(t) + seq![' ', ' ', '1', ' ', 'u', 's', 'e', 'r', ' ', 'g', 'r', 'o', 'u', 'p', ' ']
        + decimal(size as nat) + seq![' ', 'J', 'a', 'n', ' ', ' ', '1', ' ', '0', '0', ':', '0', '0', ' ']
        + ls_name_field(name, t)
}

/// A name that an `ls -la` line carries back unchanged: words separated by
/// single spaces, not `.` or `..`, and, for a symlink, without ` -> `
/// before the target (counting the space after the name).
pub open spec fn ls_safe_name(name: Seq<char>, t: EntryType) -> bool {
    &&& single_spaced(name)
    &&& name != seq!['.']
    &&& name != seq!['.', '.']
    &&& t == EntryType::Symlink ==> !contains_seq(name + seq![' '], arrow())
}

/// The name field of a safe name is single-spaced.
proof fn lemma_name_field_spaced(name: Seq<char>, t: EntryType)
    requires
        ls_safe_name(name, t),
    ensures
        single_spaced(ls_name_field(name, t)),
{
    if t == EntryType::Symlink {
        let f = name + ls_link_suffix();
        let n = name.len();
        assert(!is_ws(name[n - 1]));
        assert forall|i: int| 0 <= i < f.len() && #[trigger] is_ws(f[i]) implies f[i] == ' ' && 0 < i
            < f.len() - 1 && !is_ws(f[i - 1]) && !is_ws(f[i + 1]) by {
            if i < n {
                assert(f[i] == name[i]);
                assert(is_ws(name[i]));
                assert(i < n - 1);
                assert(f[i - 1] == name[i - 1]);
                assert(f[i + 1] == name[i + 1]);
            } else {
                let k = i - n;
                assert(f[i] == ls_link_suffix()[k]);
                assert(k == 0 || k == 3);
                if k == 0 {
                    assert(f[i - 1] == name[n - 1]);
                }
            }
        }
    }
}

/// Splitting pieces joined by a separator they do not hold gives the
/// pieces back.
proof fn lemma_split_join(ls: Seq<Seq<char>>, sep: char)
    requires
        ls.len() >= 1,
        forall|i: int, j: int| 0 <= i < ls.len() && 0 <= j < ls[i].len() ==> ls[i][j] != sep,
    ensures
        split_on(join_with(ls, sep), sep) == ls,
    decreases ls.len(),
{
    let x = ls.last();
    assert forall|j: int| 0 <= j < x.len() implies x[j] != sep by {
        assert(x == ls[ls.len() - 1]);
    }
    if ls.len() == 1 {
        lemma_split_on_extend(Seq::<char>::empty(), x, sep);
        assert(split_on(Seq::<char>::empty(), sep) == seq![Seq::<char>::empty()]);
        assert(Seq::<char>::empty() + x =~= x);
        assert(seq![Seq::<char>::empty()].update(0, x) =~= ls);
    } else {
        let prev = ls.drop_last();
        assert forall|i: int, j: int| 0 <= i < prev.len() && 0 <= j < prev[i].len() implies prev[i][j]
            != sep by {
            assert(prev[i] == ls[i]);
        }
        lemma_split_join(prev, sep);
        let j = join_with(prev, sep);
        let js = j + seq![sep];
        assert(js =~= j.push(sep));
        assert(js.drop_last() =~= j);
        lemma_split_on_extend(js, x, sep);
        let p = split_on(js, sep);
        assert(p == prev.push(Seq::<char>::empty()));
        assert(Seq::<char>::empty() + x =~= x);
        assert(p.update(p.len() - 1, p.last() + x) =~= ls);
    }
}

/// The fixed words of an `ls -la` line before its size.
pub open spec fn ls_head_words(t: EntryType) -> Seq<Seq<char>> {
    seq![ls_mode(t), seq!['1'], seq!['u', 's', 'e', 'r'], seq!['g', 'r', 'o', 'u', 'p']]
}

/// The fixed words of an `ls -la` line between its size and its name.
pub open spec fn ls_date_words() -> Seq<Seq<char>> {
    seq![seq!['J', 'a', 'n'], seq!['1'], seq!['0', '0', ':', '0', '0']]
}

/// The words of an `ls -la` line: the fixed fields, the size, and the
/// words of the name field.
proof fn lemma_ls_line_words(name: Seq<char>, t: EntryType, size: u64)
    ensures
        words(ls_line_of(name, t, size)) == ls_head_words(t) + seq![decimal(size as nat)]
            + ls_date_words() + words(ls_name_field(name, t)),
{
    let m = ls_mode(t);
    let d = decimal(size as nat);
    let nf = ls_name_field(name, t);
    lemma_decimal_digits(size as nat);
    let one = seq!['1'];
    let user = seq!['u', 's', 'e', 'r'];
    let group = seq!['g', 'r', 'o', 'u', 'p'];
    let jan = seq!['J', 'a', 'n'];
    let time = seq!['0', '0', ':', '0', '0'];
    let sp = seq![' '];
    let e = Seq::<char>::empty();
    let r7 = time + sp + nf;
    let r6 = one + sp + r7;
    let r5 = e + sp + r6;
    let r4 = jan + sp + r5;
    let r3 = d + sp + r4;
    let r2 = group + sp + r3;
    let r1 = user + sp + r2;
    let r0 = one + sp + r1;
    let rz = e + sp + r0;
    assert(ls_line_of(name, t, size) =~= m + sp + rz);
    assert(no_ws(m));
    assert(no_ws(one));
    assert(no_ws(user));
    assert(no_ws(group));
    assert(no_ws(jan));
    assert(no_ws(time));
    lemma_words_nothing();
    lemma_words_concat(m, ' ', rz);
    lemma_words_concat(e, ' ', r0);
    lemma_words_concat(one, ' ', r1);
    lemma_words_concat(user, ' ', r2);
    lemma_words_concat(group, ' ', r3);
    lemma_words_concat(d, ' ', r4);
    lemma_words_concat(jan, ' ', r5);
    lemma_words_concat(e, ' ', r6);
    lemma_words_concat(one, ' ', r7);
    lemma_words_concat(time, ' ', nf);
    lemma_words_word(m);
    lemma_words_word(one);
    lemma_words_word(user);
    lemma_words_word(group);
    lemma_words_word(d);
    lemma_words_word(jan);
    lemma_words_word(time);
    assert(seq![m] + (seq![one] + (seq![user] + (seq![group] + (seq![d] + (seq![jan] + (seq![one] + (
    seq![time] + words(nf)))))))) =~= ls_head_words(t) + seq![d] + ls_date_words() + words(nf));
}

/// The name of a symlink written with its target reads back as the name.
proof fn lemma_ls_link_name(name: Seq<char>)
    requires
        ls_safe_name(name, EntryType::Symlink),
    ensures
        ls_name(name + ls_link_suffix(), EntryType::Symlink) == name,
{
    let nf = name + ls_link_suffix();
    let n = name.len();
    assert(!is_ws(name[n - 1]));
    assert(nf.subrange(n as int, n + 4int) =~= arrow());
    assert(occurs_at(nf, arrow(), n as int));
    assert(contains_seq(nf, arrow()));
    assert forall|j: int| 0 <= j < n implies !occurs_at(nf, arrow(), j) by {
        if occurs_at(nf, arrow(), j) {
            if j + 4 <= n + 1 {
                let ns = name + seq![' '];
                assert(ns.subrange(j, j + 4) =~= nf.subrange(j, j + 4));
                assert(occurs_at(ns, arrow(), j));
            } else if j == n - 2 {
                assert(nf[j + 2] == nf.subrange(j, j + 4)[2]);
            } else {
                assert(nf[j] == name[n - 1]);
                assert(nf[j] == nf.subrange(j, j + 4)[0]);
            }
        }
    }
    assert(first_occurrence(nf, arrow(), n as int));
    let k = first_index_of(nf, arrow());
    assert(first_occurrence(nf, arrow(), k));
    lemma_first_occurrence_unique(nf, arrow(), k, n as int);
    assert(nf.take(n as int) =~= name);
}

/// An `ls -la` line is already trimmed and is no `total` line.
proof fn lemma_ls_line_plain(name: Seq<char>, t: EntryType, size: u64)
    requires
        ls_safe_name(name, t),
    ensures
        trim(ls_line_of(name, t, size)) == ls_line_of(name, t, size),
        !starts_with(ls_line_of(name, t, size), total_prefix()),
{
    let line = ls_line_of(name, t, size);
    let nf = ls_name_field(name, t);
    lemma_name_field_spaced(name, t);
    assert(!is_ws(nf[nf.len() - 1]));
    assert(line.last() == nf.last());
    assert(line[0] == ls_mode(t)[0]);
    assert(Seq::<char>::empty() + line + Seq::<char>::empty() =~= line);
    crate::text::lemma_trim_padded(Seq::<char>::empty(), line, Seq::<char>::empty());
    if starts_with(line, total_prefix()) {
        assert(line.take(6)[0] == line[0]);
    }
}

/// An `ls -la` line written for a safe name reads back as that entry.
proof fn lemma_ls_line_round_trip(name: Seq<char>, t: EntryType, size: u64, parent: Seq<char>)
    requires
        ls_safe_name(name, t),
    ensures
        ls_line(ls_line_of(name, t, size), parent) == Some((name, joined_path(parent, name), t, size)),
{
    let d = decimal(size as nat);
    let nf = ls_name_field(name, t);
    let line = ls_line_of(name, t, size);
    lemma_decimal_digits(size as nat);
    lemma_name_field_spaced(name, t);
    lemma_single_spaced_words(nf);
    lemma_ls_line_plain(name, t, size);
    lemma_ls_line_words(name, t, size);
    let wn = words(nf);
    let f = words(line);
    assert(f.len() >= 9);
    assert(f[4] == d);
    assert(unsigned_part(d) == d);
    assert(parse_u64(f[4]) == Some(size));
    assert(f[0] == ls_mode(t));
    assert(ls_type(f[0]) == t);
    assert(f.skip(8) =~= wn);
    assert(join_with(f.skip(8), ' ') == nf);
    if t == EntryType::Symlink {
        lemma_ls_link_name(name);
    }
    assert(ls_name(nf, t) == name);
}

/// The entries that `ls -la` lines written for `entries` read back as.
pub open spec fn listed_back(entries: Seq<(Seq<char>, EntryType, u64)>, parent: Seq<char>) -> Seq<
    (Seq<char>, Seq<char>, EntryType, u64),
> {
    entries.map_values(|e: (Seq<char>, EntryType, u64)| (e.0, joined_path(parent, e.0), e.1, e.2))
}

/// The `ls -la` lines written for `entries`.
pub open spec fn ls_lines_of(entries: Seq<(Seq<char>, EntryType, u64)>) -> Seq<Seq<char>> {
    entries.map_values(|e: (Seq<char>, EntryType, u64)| ls_line_of(e.0, e.1, e.2))
}

/// Lines that each read back as an entry read back as those entries.
proof fn lemma_ls_entries_round_trip(entries: Seq<(Seq<char>, EntryType, u64)>, parent: Seq<char>)
    requires
        forall|i: int| 0 <= i < entries.len() ==> ls_safe_name(#[trigger] entries[i].0, entries[i].1),
    ensures
        ls_entries(ls_lines_of(entries), parent) == listed_back(entries, parent),
    decreases entries.len(),
{
    if entries.len() > 0 {
        let prev = entries.drop_last();
        assert forall|i: int| 0 <= i < prev.len() implies ls_safe_name(#[trigger] prev[i].0, prev[i].1) by {
            assert(prev[i] == entries[i]);
        }
        lemma_ls_entries_round_trip(prev, parent);
        let e = entries.last();
        assert(ls_safe_name(entries[entries.len() - 1].0, entries[entries.len() - 1].1));
        lemma_ls_line_round_trip(e.0, e.1, e.2, parent);
        assert(ls_lines_of(entries).drop_last() =~= ls_lines_of(prev));
        assert(ls_lines_of(entries).last() == ls_line_of(e.0, e.1, e.2));
        assert(listed_back(entries, parent) =~= listed_back(prev, parent).push(
            (e.0, joined_path(parent, e.0), e.1, e.2),
        ));
    }
}

/// Entries written as `ls -la` lines joined by newlines, with names that
/// are single-spaced words (not `.` or `..`, and for symlinks without
/// ` -> ` before the target), parse back to the same names, types and
/// sizes, with paths under the listed directory.
pub proof fn law_ls_la_round_trip(entries: Seq<(Seq<char>, EntryType, u64)>, parent: Seq<char>)
    requires
        forall|i: int| 0 <= i < entries.len() ==> ls_safe_name(#[trigger] entries[i].0, entries[i].1),
    ensures
        ls_la_listing(join_with(ls_lines_of(entries), '\n'), parent) == listed_back(entries, parent),
{
    let lines = ls_lines_of(entries);
    lemma_ls_entries_round_trip(entries, parent);
    if entries.len() == 0 {
        assert(lines =~= Seq::<Seq<char>>::empty());
        assert(split_on(Seq::<char>::empty(), '\n') == seq![Seq::<char>::empty()]);
        assert(seq![Seq::<char>::empty()].drop_last() =~= Seq::<Seq<char>>::empty());
        let ws = Seq::<char>::empty();
        assert(trim(ws) =~= ws) by {
            assert(trim_start(ws) == ws);
            assert(trim_end(ws) == ws);
        }
        assert(listed_back(entries, parent) =~= Seq::<(Seq<char>, Seq<char>, EntryType, u64)>::empty());
    } else {
        assert forall|i: int, j: int| 0 <= i < lines.len() && 0 <= j < lines[i].len() implies lines[i][j]
            != '\n' by {
            let e = entries[i];
            assert(ls_safe_name(entries[i].0, entries[i].1));
            let nf = ls_name_field(e.0, e.1);
            lemma_name_field_spaced(e.0, e.1);
            lemma_decimal_digits(e.2 as nat);
            let line = ls_line_of(e.0, e.1, e.2);
            assert(lines[i] == line);
            let pre = ls_mode(e.1) + seq![' ', ' ', '1', ' ', 'u', 's', 'e', 'r', ' ', 'g', 'r', 'o', 'u', 'p', ' '];
            let a = pre.len();
            let b = a + decimal(e.2 as nat).len();
            let c = b + 14;
            if j < a {
                assert(line[j] == pre[j]);
            } else if j < b {
                assert(line[j] == decimal(e.2 as nat)[j - a]);
                assert(crate::remote::is_digit(decimal(e.2 as nat)[j - a]));
            } else if j < c {
                assert(line[j] == seq![' ', 'J', 'a', 'n', ' ', ' ', '1', ' ', '0', '0', ':', '0', '0', ' '][j - b]);
            } else {
                assert(line[j] == nf[j - c]);
                if crate::text::is_ws(nf[j - c]) {
                    assert(nf[j - c] == ' ');
                }
            }
        }
        lemma_split_join(lines, '\n');
    }
}

/// Parse the output of `ls -la` into a vector of directory entries.
///
/// Skips "total NNN" header lines, "." and ".." entries, and lines with
/// fewer than 9 whitespace-separated fields or an unparseable size field.
/// For symlinks, strips the " -> target" suffix from the filename.
pub fn parse_ls_la_output(output: &str, parent_dir: &str) -> (r: Vec<DirectoryEntry>)
    ensures
        r@.map_values(|e: DirectoryEntry| entry_parts(e)) == ls_la_listing(output@, parent_dir@),
{
    let v = chars_of(output);
    let parent = chars_of(parent_dir);
    let mut out: Vec<DirectoryEntry> = Vec::new();
    let ghost mut lines: Seq<Seq<char>> = Seq::empty();
    let mut start: usize = 0;
    let mut i: usize = 0;
    assert(v@.take(0) =~= Seq::<char>::empty());
    assert(split_on(Seq::<char>::empty(), '\n') == seq![Seq::<char>::empty()]);
    assert(v@.subrange(0, 0) =~= Seq::<char>::empty());
    while i < v.len()
        invariant
            start <= i <= v@.len(),
            parent@ == parent_dir@,
            split_on(v@.take(i as int), '\n') == lines.push(v@.subrange(start as int, i as int)),
            out@.map_values(|e: DirectoryEntry| entry_parts(e)) == ls_entries(lines, parent@),
        decreases v@.len() - i,
    {
        proof {
            lemma_split_on_step(v@, i as int, '\n');
        }
        if v[i] == '\n' {
            let ghost line = v@.subrange(start as int, i as int);
            let ghost before = out@;
            match ls_line_entry(v.as_slice(), start, i, parent.as_slice()) {
                Some(e) => {
                    out.push(e);
                    assert(out@.map_values(|e: DirectoryEntry| entry_parts(e)) =~= before.map_values(
                        |e: DirectoryEntry| entry_parts(e),
                    ).push(entry_parts(e)));
                },
                None => {},
            }
            proof {
                assert(lines.push(line).drop_last() == lines);
                lines = lines.push(line);
                assert(v@.subrange(i + 1, i + 1) =~= Seq::<char>::empty());
            }
            start = i + 1;
        } else {
            assert(v@.subrange(start as int, i + 1) == v@.subrange(start as int, i as int).push(
                v@[i as int],
            ));
            assert(lines.push(v@.subrange(start as int, i as int)).update(
                lines.len() as int,
                v@.subrange(start as int, i as int).push(v@[i as int]),
            ) =~= lines.push(v@.subrange(start as int, i + 1)));
        }
        i = i + 1;
    }
    assert(v@.take(v@.len() as int) == v@);
    let ghost last = v@.subrange(start as int, v@.len() as int);
    let ghost before = out@;
    match ls_line_entry(v.as_slice(), start, v.len(), parent.as_slice()) {
        Some(e) => {
            out.push(e);
            assert(out@.map_values(|e: DirectoryEntry| entry_parts(e)) =~= before.map_values(
                |e: DirectoryEntry| entry_parts(e),
            ).push(entry_parts(e)));
        },
        None => {},
    }
    assert(lines.push(last).drop_last() == lines);
    out
}


/// The code of a failed SSH or SFTP call: a session error number or an
/// SFTP status.
#[derive(Debug, Clone, Copy, PartialEq, Eq, Structural)]
pub enum ErrorCode {
    Session(i32),
    Sftp(i32),
}

/// The error for a failed SFTP call on `path` with code `code`, message
/// `message` and full text `display`: a timeout (session error -9), a
/// refusal (SFTP status 3, or a message that speaks of permission), or else
/// a connection failure with the full text.
pub open spec fn sftp_error(code: ErrorCode, message: Seq<char>, display: Seq<char>, path: Seq<char>) -> (
    bool,
    bool,
    Seq<char>,
) {
    if code == ErrorCode::Session(-9i32) {
        (true, false, Seq::empty())
    } else if code == ErrorCode::Sftp(3i32) || contains_seq(message, "permission"@) || contains_seq(
        message,
        "Permission"@,
    ) {
        (false, true, path)
    } else {
        (false, false, display)
    }
}

/// The view of a timeout, refusal or connection failure as
/// `(is timeout, is refusal, text)`.
pub open spec fn error_kind(e: SshError) -> (bool, bool, Seq<char>) {
    match e {
        SshError::Timeout => (true, false, Seq::empty()),
        SshError::PermissionDenied(p) => (false, true, p@),
        SshError::ConnectionFailed(m) => (false, false, m@),
        _ => (false, false, seq!['?']),
    }
}

/// Map the code and texts of a failed SFTP call on `path` to an SshError,
/// accounting for permission and timeout errors.
pub fn map_sftp_error(code: ErrorCode, message: &str, display: String, path: &str) -> (r: SshError)
    ensures
        r is Timeout || r is PermissionDenied || r is ConnectionFailed,
        error_kind(r) == sftp_error(code, message@, display@, path@),
{
    if code == ErrorCode::Session(-9) {
        return SshError::Timeout;
    }
    let m = chars_of(message);
    let lower = chars_of("permission");
    let upper = chars_of("Permission");
    if code == ErrorCode::Sftp(3) || contains_chars(m.as_slice(), lower.as_slice()) || contains_chars(
        m.as_slice(),
        upper.as_slice(),
    ) {
        SshError::PermissionDenied(path.to_owned())
    } else {
        SshError::ConnectionFailed(display)
    }
}

/// What a stat of a remote path says: whether it is a directory or a
/// symlink, and its size if known.
#[derive(Debug, Clone, Copy, PartialEq, Eq, Structural)]
pub struct StatInfo {
    pub is_dir: bool,
    pub is_symlink: bool,
    pub size: Option<u64>,
}

/// The type and size of an entry from its stat: a directory, else a
/// symlink, else a file, of the stated size or 0; a file of size 0 when
/// the stat failed.
pub open spec fn stat_kind(stat: Option<StatInfo>) -> (EntryType, u64) {
    match stat {
        Some(st) => (
            if st.is_dir {
                EntryType::Directory
            } else if st.is_symlink {
                EntryType::Symlink
            } else {
                EntryType::File
            },
            match st.size {
                Some(n) => n,
                None => 0,
            },
        ),
        None => (EntryType::File, 0),
    }
}

/// The entry for the remote `path` given its stat: named by the last name
/// of the path (empty when it has none).
pub fn entry_from_stat(path: &str, stat: Option<StatInfo>) -> (r: DirectoryEntry)
    ensures
        r.name@ == match path_file_name(path@) {
            Some(n) => n,
            None => Seq::empty(),
        },
        r.path@ == path@,
        (r.entry_type, r.size) == stat_kind(stat),
{
    let v = chars_of(path);
    let name = match file_name_of(v.as_slice()) {
        Some(n) => string_from_chars(n.as_slice()),
        None => String::new(),
    };
    let (entry_type, size) = match stat {
        Some(st) => (
            if st.is_dir {
                EntryType::Directory
            } else if st.is_symlink {
                EntryType::Symlink
            } else {
                EntryType::File
            },
            match st.size {
                Some(n) => n,
                None => 0,
            },
        ),
        None => (EntryType::File, 0),
    };
    DirectoryEntry { name, path: path.to_owned(), entry_type, size }
}

/// The path that one line of `find` output names, if any: blank lines and
/// paths without a last name give none.
pub open spec fn found_line(line: Seq<char>) -> Option<Seq<char>> {
    let t = trim(line);
    if t.len() == 0 {
        None
    } else {
        match path_file_name(t) {
            Some(n) => if n.len() > 0 {
                Some(t)
            } else {
                None
            },
            None => None,
        }
    }
}

/// The paths that a sequence of `find` output lines names, in order.
pub open spec fn found_lines(lines: Seq<Seq<char>>) -> Seq<Seq<char>>
    decreases lines.len(),
{
    if lines.len() == 0 {
        Seq::empty()
    } else {
        let prev = found_lines(lines.drop_last());
        match found_line(lines.last()) {
            Some(p) => prev.push(p),
            None => prev,
        }
    }
}

/// The paths that the output of `find` names.
pub open spec fn find_listing(output: Seq<char>) -> Seq<Seq<char>> {
    found_lines(split_on(output, '\n'))
}

/// The path named by the line `v[lo..hi]`, if any.
fn found_line_path(v: &[char], lo: usize, hi: usize) -> (r: Option<String>)
    requires
        lo <= hi <= v@.len(),
    ensures
        r is None <==> found_line(v@.subrange(lo as int, hi as int)) is None,
        r matches Some(p) ==> found_line(v@.subrange(lo as int, hi as int)) == Some(p@),
{
    let (a, b) = trim_bounds(v, lo, hi);
    let t = slice_chars(v, a, b);
    if t.len() == 0 {
        return None;
    }
    match file_name_of(t.as_slice()) {
        Some(n) => if n.len() > 0 {
            Some(string_from_chars(t.as_slice()))
        } else {
            None
        },
        None => None,
    }
}

/// The paths named in the output of a remote `find`, one per non-blank
/// line, trimmed, leaving out those without a last name.
pub fn find_output_paths(output: &str) -> (r: Vec<String>)
    ensures
        r@.map_values(|p: String| p@) == find_listing(output@),
{
    let v = chars_of(output);
    let mut out: Vec<String> = Vec::new();
    let ghost mut lines: Seq<Seq<char>> = Seq::empty();
    let mut start: usize = 0;
    let mut i: usize = 0;
    assert(v@.take(0) =~= Seq::<char>::empty());
    assert(split_on(Seq::<char>::empty(), '\n') == seq![Seq::<char>::empty()]);
    assert(v@.subrange(0, 0) =~= Seq::<char>::empty());
    while i < v.len()
        invariant
            start <= i <= v@.len(),
            split_on(v@.take(i as int), '\n') == lines.push(v@.subrange(start as int, i as int)),
            out@.map_values(|p: String| p@) == found_lines(lines),
        decreases v@.len() - i,
    {
        proof {
            lemma_split_on_step(v@, i as int, '\n');
        }
        if v[i] == '\n' {
            let ghost line = v@.subrange(start as int, i as int);
            let ghost before = out@;
            match found_line_path(v.as_slice(), start, i) {
                Some(p) => {
                    out.push(p);
                    assert(out@.map_values(|p: String| p@) =~= before.map_values(|p: String| p@).push(
                        p@,
                    ));
                },
                None => {},
            }
            proof {
                assert(lines.push(line).drop_last() == lines);
                lines = lines.push(line);
                assert(v@.subrange(i + 1, i + 1) =~= Seq::<char>::empty());
            }
            start = i + 1;
        } else {
            assert(v@.subrange(start as int, i + 1) == v@.subrange(start as int, i as int).push(
                v@[i as int],
            ));
            assert(lines.push(v@.subrange(start as int, i as int)).update(
                lines.len() as int,
                v@.subrange(start as int, i as int).push(v@[i as int]),
            ) =~= lines.push(v@.subrange(start as int, i + 1)));
        }
        i = i + 1;
    }
    assert(v@.take(v@.len() as int) == v@);
    let ghost last = v@.subrange(start as int, v@.len() as int);
    let ghost before = out@;
    match found_line_path(v.as_slice(), start, v.len()) {
        Some(p) => {
            out.push(p);
            assert(out@.map_values(|p: String| p@) =~= before.map_values(|p: String| p@).push(p@));
        },
        None => {},
    }
    assert(lines.push(last).drop_last() == lines);
    out
}

/// Whether the error output of `sudo` shows that it wanted a password.
pub open spec fn sudo_refused(stderr: Seq<char>) -> bool {
    contains_seq(stderr, "password is required"@) || contains_seq(stderr, "sudo:"@)
}

/// `n` in decimal, with a minus sign when negative.
pub open spec fn signed_decimal(n: int) -> Seq<char> {
    if n < 0 {
        seq!['-'] + decimal((-n) as nat)
    } else {
        decimal(n as nat)
    }
}

/// Appends `n` in decimal, with a minus sign when negative.
fn push_signed(s: &mut String, n: i32)
    ensures
        final(s)@ == old(s)@ + signed_decimal(n as int),
{
    if n < 0 {
        push_char(s, '-');
        let m: i64 = -(n as i64);
        push_decimal(s, m as u128);
    } else {
        push_decimal(s, n as u128);
    }
}

/// Whether the error output of `sudo` shows that it wanted a password.
fn sudo_wanted_password(stderr: &str) -> (r: bool)
    ensures
        r == sudo_refused(stderr@),
{
    let e = chars_of(stderr);
    let a = chars_of("password is required");
    let b = chars_of("sudo:");
    contains_chars(e.as_slice(), a.as_slice()) || contains_chars(e.as_slice(), b.as_slice())
}

/// The result of reading `path` with `sudo cat`, once `bytes` bytes were
/// streamed, the command wrote `stderr` and exited with `exit_status`: a
/// refusal when `sudo` wanted a password, a failure when the command did
/// not succeed, and the byte count otherwise.
pub fn sudo_cat_result(bytes: u64, stderr: &str, exit_status: i32, path: &str) -> (r: Result<u64, SshError>)
    ensures
        sudo_refused(stderr@) ==> (r matches Err(SshError::PermissionDenied(p)) && p@ == path@),
        !sudo_refused(stderr@) && exit_status != 0 ==> (r matches Err(SshError::ConnectionFailed(m))
            && m@ == "sudo cat command failed with exit status "@ + signed_decimal(exit_status as int)),
        !sudo_refused(stderr@) && exit_status == 0 ==> r == Ok::<u64, SshError>(bytes),
{
    if sudo_wanted_password(stderr) {
        return Err(SshError::PermissionDenied(path.to_owned()));
    }
    if exit_status != 0 {
        let mut m = String::new();
        push_str(&mut m, "sudo cat command failed with exit status ");
        push_signed(&mut m, exit_status);
        return Err(SshError::ConnectionFailed(m));
    }
    Ok(bytes)
}

/// The result of listing `path` with `sudo ls -la`, which printed `stdout`
/// and `stderr` and exited with `exit_status`: a refusal when `sudo`
/// wanted a password, a failure with the status and the trimmed error
/// output when the command did not succeed, and the parsed listing
/// otherwise.
pub fn sudo_ls_result(stdout: &str, stderr: &str, exit_status: i32, path: &str) -> (r: Result<
    Vec<DirectoryEntry>,
    SshError,
>)
    ensures
        sudo_refused(stderr@) ==> (r matches Err(SshError::PermissionDenied(p)) && p@ == path@),
        !sudo_refused(stderr@) && exit_status != 0 ==> (r matches Err(SshError::ConnectionFailed(m))
            && m@ == "sudo ls -la exited with status "@ + signed_decimal(exit_status as int)
            + seq![':', ' '] + trim(stderr@)),
        !sudo_refused(stderr@) && exit_status == 0 ==> (r matches Ok(v) && v@.map_values(
            |e: DirectoryEntry| entry_parts(e),
        ) == ls_la_listing(stdout@, path@)),
{
    if sudo_wanted_password(stderr) {
        return Err(SshError::PermissionDenied(path.to_owned()));
    }
    if exit_status != 0 {
        let mut m = String::new();
        push_str(&mut m, "sudo ls -la exited with status ");
        push_signed(&mut m, exit_status);
        push_char(&mut m, ':');
        push_char(&mut m, ' ');
        let t = crate::text::trimmed_chars(stderr);
        push_chars(&mut m, t.as_slice());
        return Err(SshError::ConnectionFailed(m));
    }
    Ok(parse_ls_la_output(stdout, path))
}

} // verus!
