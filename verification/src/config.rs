//! Config file parsing for SSH connection parameters.
use vstd::prelude::*;

use crate::text::{
    chars_of, chars_equal_str, trim, trim_bounds, split_on, lemma_split_on_step, push_str,
    push_chars, string_from_range, blanks, is_ws, lemma_trim_padded, lemma_split_on_extend,
    lemma_trim_end_prefix, trim_start, trim_end,
};

verus! {

broadcast use vstd::string::group_string_axioms;

/// Application configuration holding SSH connection parameters.
#[derive(Debug, Clone, PartialEq)]
pub struct AppConfig {
    pub ssh_identity_file: String,
    pub username: String,
    pub ip_address: String,
    /// Whether to retry a refused directory listing or download with
    /// `sudo` (the `use_sudo` key set to `true`).
    pub use_sudo: bool,
}

/// Errors that can occur during config file parsing.
#[derive(Debug)]
pub enum ConfigError {
    /// The config file does not exist (its path).
    FileNotFound(String),
    /// The config file could not be read (its path, and the reason).
    ReadError(String, String),
    /// A required key is absent.
    MissingField(&'static str),
    /// A line is neither blank, a comment, nor `key=value`.
    ParseError(String),
}

/// The position of the first `c` in `s`.
pub open spec fn first_index(s: Seq<char>, c: char) -> Option<int>
    decreases s.len(),
{
    if s.len() == 0 {
        None
    } else if s[0] == c {
        Some(0)
    } else {
        match first_index(s.drop_first(), c) {
            Some(k) => Some(k + 1),
            None => None,
        }
    }
}

/// The values seen so far for `ssh_identity_file`, `username`,
/// `ip_address` and `use_sudo`, or the first line (trimmed) that is not
/// `key=value`.
pub type ScanState = Result<
    (Option<Seq<char>>, Option<Seq<char>>, Option<Seq<char>>, Option<Seq<char>>),
    Seq<char>,
>;

/// The effect of one line of the config file.
pub open spec fn scan_line(st: ScanState, raw: Seq<char>) -> ScanState {
    match st {
        Err(bad) => Err(bad),
        Ok((ssh, user, ip, sudo)) => {
            let t = trim(raw);
            if t.len() == 0 || t[0] == '#' {
                Ok((ssh, user, ip, sudo))
            } else {
                match first_index(t, '=') {
                    None => Err(t),
                    Some(k) => {
                        let key = trim(t.take(k));
                        let value = trim(t.skip(k + 1));
                        if key == "ssh_identity_file"@ {
                            Ok((Some(value), user, ip, sudo))
                        } else if key == "username"@ {
                            Ok((ssh, Some(value), ip, sudo))
                        } else if key == "ip_address"@ {
                            Ok((ssh, user, Some(value), sudo))
                        } else if key == "use_sudo"@ {
                            Ok((ssh, user, ip, Some(value)))
                        } else {
                            Ok((ssh, user, ip, sudo))
                        }
                    },
                }
            }
        },
    }
}

/// The effect of a sequence of lines, first to last.
pub open spec fn scan_lines(lines: Seq<Seq<char>>) -> ScanState
    decreases lines.len(),
{
    if lines.len() == 0 {
        Ok((None, None, None, None))
    } else {
        scan_line(scan_lines(lines.drop_last()), lines.last())
    }
}

/// What parsing a config text gives.
pub enum ConfigOutcome {
    Parsed(Seq<char>, Seq<char>, Seq<char>, bool),
    Missing(Seq<char>),
    Invalid(Seq<char>),
    /// An error about the file itself, which text parsing never gives.
    FileProblem,
}

/// The message for a line that is not `key=value`.
pub open spec fn invalid_line_message(t: Seq<char>) -> Seq<char> {
    "Invalid line (expected key=value): '"@ + t + "'"@
}

/// Whether the `use_sudo` value (its last one, if any) turns sudo on.
pub open spec fn sudo_flag(v: Option<Seq<char>>) -> bool {
    v == Some("true"@)
}

/// The outcome of parsing `content`: blank lines and lines starting with
/// `#` are skipped, every other line must hold `=`, keys and values are
/// trimmed, a later value for a key replaces an earlier one, unknown keys
/// are ignored, the three fields are required in the order
/// `ssh_identity_file`, `username`, `ip_address`, and `use_sudo` is on
/// exactly when its value is `true`.
pub open spec fn config_outcome(content: Seq<char>) -> ConfigOutcome {
    match scan_lines(split_on(content, '\n')) {
        Err(bad) => ConfigOutcome::Invalid(invalid_line_message(bad)),
        Ok((ssh, user, ip, sudo)) => {
            if ssh is None {
                ConfigOutcome::Missing("ssh_identity_file"@)
            } else if user is None {
                ConfigOutcome::Missing("username"@)
            } else if ip is None {
                ConfigOutcome::Missing("ip_address"@)
            } else {
                ConfigOutcome::Parsed(ssh->0, user->0, ip->0, sudo_flag(sudo))
            }
        },
    }
}

/// The outcome that a parse result stands for.
pub open spec fn outcome_of(r: Result<AppConfig, ConfigError>) -> ConfigOutcome {
    match r {
        Ok(c) => ConfigOutcome::Parsed(c.ssh_identity_file@, c.username@, c.ip_address@, c.use_sudo),
        Err(ConfigError::MissingField(f)) => ConfigOutcome::Missing(f@),
        Err(ConfigError::ParseError(m)) => ConfigOutcome::Invalid(m@),
        Err(ConfigError::FileNotFound(_)) => ConfigOutcome::FileProblem,
        Err(ConfigError::ReadError(_, _)) => ConfigOutcome::FileProblem,
    }
}

/// The running state of the parser.
struct Scan {
    ssh: Option<String>,
    user: Option<String>,
    ip: Option<String>,
    sudo: Option<String>,
    bad: Option<Vec<char>>,
}

impl Scan {
    spec fn state(&self) -> ScanState {
        match self.bad {
            Some(b) => Err(b@),
            None => Ok(
                (
                    match self.ssh {
                        Some(s) => Some(s@),
                        None => None,
                    },
                    match self.user {
                        Some(s) => Some(s@),
                        None => None,
                    },
                    match self.ip {
                        Some(s) => Some(s@),
                        None => None,
                    },
                    match self.sudo {
                        Some(s) => Some(s@),
                        None => None,
                    },
                ),
            ),
        }
    }
}

/// The position of the first `=` in `v[lo..hi]`, relative to `lo`.
fn find_equals(v: &[char], lo: usize, hi: usize) -> (r: Option<usize>)
    requires
        lo <= hi <= v@.len(),
    ensures
        r is None ==> first_index(v@.subrange(lo as int, hi as int), '=') is None,
        r matches Some(k) ==> lo + k < hi && first_index(v@.subrange(lo as int, hi as int), '=')
            == Some(k as int),
    decreases hi - lo,
{
    if lo == hi {
        return None;
    }
    assert(v@.subrange(lo as int, hi as int).drop_first() == v@.subrange(lo + 1, hi as int));
    if v[lo] == '=' {
        Some(0)
    } else {
        match find_equals(v, lo + 1, hi) {
            Some(k) => Some(k + 1),
            None => None,
        }
    }
}

/// Applies one line (`v[lo..hi]`) to the parser state.
fn scan_one(st: &mut Scan, v: &[char], lo: usize, hi: usize)
    requires
        lo <= hi <= v@.len(),
    ensures
        final(st).state() == scan_line(old(st).state(), v@.subrange(lo as int, hi as int)),
{
    if st.bad.is_some() {
        return;
    }
    let (a, b) = trim_bounds(v, lo, hi);
    let ghost t = v@.subrange(a as int, b as int);
    if a == b || v[a] == '#' {
        return;
    }
    match find_equals(v, a, b) {
        None => {
            let mut bad: Vec<char> = Vec::new();
            let mut i = a;
            while i < b
                invariant
                    a <= i <= b <= v@.len(),
                    bad@ == v@.subrange(a as int, i as int),
                decreases b - i,
            {
                bad.push(v[i]);
                assert(v@.subrange(a as int, i + 1) == v@.subrange(a as int, i as int).push(
                    v@[i as int],
                ));
                i = i + 1;
            }
            st.bad = Some(bad);
        },
        Some(k) => {
            let eq = a + k;
            let (ka, kb) = trim_bounds(v, a, eq);
            let (va, vb) = trim_bounds(v, eq + 1, b);
            assert(t.take(k as int) == v@.subrange(a as int, eq as int));
            assert(t.skip(k + 1) == v@.subrange(eq + 1, b as int));
            let key = string_from_range(v, ka, kb);
            let value = string_from_range(v, va, vb);
            let key_chars = chars_of(key.as_str());
            if chars_equal_str(key_chars.as_slice(), "ssh_identity_file") {
                st.ssh = Some(value);
            } else if chars_equal_str(key_chars.as_slice(), "username") {
                st.user = Some(value);
            } else if chars_equal_str(key_chars.as_slice(), "ip_address") {
                st.ip = Some(value);
            } else if chars_equal_str(key_chars.as_slice(), "use_sudo") {
                st.sudo = Some(value);
            }
        },
    }
}

impl AppConfig {
    /// Parse config from a string. Useful for testing without files.
    pub fn parse_content(content: &str) -> (r: Result<Self, ConfigError>)
        ensures
            outcome_of(r) == config_outcome(content@),
    {
        let v = chars_of(content);
        let mut st = Scan { ssh: None, user: None, ip: None, sudo: None, bad: None };
        let ghost mut lines: Seq<Seq<char>> = Seq::empty();
        let mut start: usize = 0;
        let mut i: usize = 0;
        assert(v@.take(0) =~= Seq::<char>::empty());
        assert(split_on(Seq::<char>::empty(), '\n') == seq![Seq::<char>::empty()]);
        assert(v@.subrange(0, 0) =~= Seq::<char>::empty());
        while i < v.len()
            invariant
                start <= i <= v@.len(),
                split_on(v@.take(i as int), '\n') == lines.push(v@.subrange(start as int, i as int)),
                st.state() == scan_lines(lines),
            decreases v@.len() - i,
        {
            proof {
                lemma_split_on_step(v@, i as int, '\n');
            }
            if v[i] == '\n' {
                let ghost line = v@.subrange(start as int, i as int);
                scan_one(&mut st, v.as_slice(), start, i);
                proof {
                    assert(lines.push(line).drop_last() == lines);
                    lines = lines.push(line);
                    assert(v@.subrange(i + 1, i + 1) =~= Seq::<char>::empty());
                }
                start = i + 1;
            } else {
                assert(v@.subrange(start as int, i + 1) == v@.subrange(start as int, i as int).push(
                    v@[i as int],
                ));
                assert(lines.push(v@.subrange(start as int, i as int)).update(
                    lines.len() as int,
                    v@.subrange(start as int, i as int).push(v@[i as int]),
                ) =~= lines.push(v@.subrange(start as int, i + 1)));
            }
            i = i + 1;
        }
        assert(v@.take(v@.len() as int) == v@);
        let ghost last = v@.subrange(start as int, v@.len() as int);
        scan_one(&mut st, v.as_slice(), start, v.len());
        assert(lines.push(last).drop_last() == lines);
        match st.bad {
            Some(bad) => {
                let mut m = String::new();
                push_str(&mut m, "Invalid line (expected key=value): '");
                push_chars(&mut m, bad.as_slice());
                push_str(&mut m, "'");
                Err(ConfigError::ParseError(m))
            },
            None => {
                let use_sudo = match &st.sudo {
                    Some(v) => {
                        let vc = chars_of(v.as_str());
                        let on = chars_equal_str(vc.as_slice(), "true");
                        proof {
                            if !on {
                                assert(v@ != "true"@);
                            }
                        }
                        on
                    },
                    None => false,
                };
                match (st.ssh, st.user, st.ip) {
                    (None, _, _) => Err(ConfigError::MissingField("ssh_identity_file")),
                    (Some(_), None, _) => Err(ConfigError::MissingField("username")),
                    (Some(_), Some(_), None) => Err(ConfigError::MissingField("ip_address")),
                    (Some(ssh_identity_file), Some(username), Some(ip_address)) => Ok(
                        AppConfig { ssh_identity_file, username, ip_address, use_sudo },
                    ),
                }
            },
        }
    }
}

/// The text shown for a configuration error.
pub open spec fn config_error_text(e: ConfigError) -> Seq<char> {
    match e {
        ConfigError::FileNotFound(p) => "Config file not found: "@ + p@,
        ConfigError::ReadError(p, why) => "Failed to read config file '"@ + p@ + "': "@ + why@,
        ConfigError::MissingField(f) => "Missing required field '"@ + f@ + "' in config file"@,
        ConfigError::ParseError(m) => "Config parse error: "@ + m@,
    }
}

impl ConfigError {
    /// The text shown for this error.
    pub fn message(&self) -> (r: String)
        ensures
            r@ == config_error_text(*self),
    {
        let mut r = String::new();
        match self {
            ConfigError::FileNotFound(p) => {
                push_str(&mut r, "Config file not found: ");
                push_str(&mut r, p.as_str());
            },
            ConfigError::ReadError(p, why) => {
                push_str(&mut r, "Failed to read config file '");
                push_str(&mut r, p.as_str());
                push_str(&mut r, "': ");
                push_str(&mut r, why.as_str());
            },
            ConfigError::MissingField(f) => {
                push_str(&mut r, "Missing required field '");
                push_str(&mut r, f);
                push_str(&mut r, "' in config file");
            },
            ConfigError::ParseError(m) => {
                push_str(&mut r, "Config parse error: ");
                push_str(&mut r, m.as_str());
            },
        }
        r
    }
}


/// Whether `line` assigns a value to `key`: it is not blank, not a
/// comment, and holds `=` with `key` (trimmed) before it.
pub open spec fn sets_key(line: Seq<char>, key: Seq<char>) -> bool {
    let t = trim(line);
    &&& t.len() > 0
    &&& t[0] != '#'
    &&& first_index(t, '=') matches Some(k) && trim(t.take(k)) == key
}

/// While every line is valid, a field that no line sets stays unset.
proof fn lemma_unset_field(lines: Seq<Seq<char>>)
    ensures
        scan_lines(lines) matches Ok((ssh, user, ip, _)) ==> {
            &&& ssh is None ==> forall|i: int|
                0 <= i < lines.len() ==> !sets_key(#[trigger] lines[i], "ssh_identity_file"@)
            &&& user is None ==> forall|i: int|
                0 <= i < lines.len() ==> !sets_key(#[trigger] lines[i], "username"@)
            &&& ip is None ==> forall|i: int|
                0 <= i < lines.len() ==> !sets_key(#[trigger] lines[i], "ip_address"@)
        },
    decreases lines.len(),
{
    if lines.len() > 0 {
        let prev = lines.drop_last();
        lemma_unset_field(prev);
        reveal_strlit("ssh_identity_file");
        reveal_strlit("username");
        reveal_strlit("ip_address");
        assert("ssh_identity_file"@.len() != "username"@.len());
        assert("ssh_identity_file"@.len() != "ip_address"@.len());
        assert("username"@.len() != "ip_address"@.len());
        assert forall|i: int| 0 <= i < prev.len() implies #[trigger] lines[i] == prev[i] by {}
        assert(lines[lines.len() - 1] == lines.last());
    }
}

/// A field reported missing is set by no line of the content.
pub proof fn law_missing_field_is_absent(content: Seq<char>)
    ensures
        config_outcome(content) matches ConfigOutcome::Missing(f) ==> forall|i: int|
            0 <= i < split_on(content, '\n').len() ==> !sets_key(
                #[trigger] split_on(content, '\n')[i],
                f,
            ),
{
    lemma_unset_field(split_on(content, '\n'));
}


/// Lines written one after another, each ended by a newline.
pub open spec fn lines_text(ls: Seq<Seq<char>>) -> Seq<char>
    decreases ls.len(),
{
    if ls.len() == 0 {
        Seq::empty()
    } else {
        lines_text(ls.drop_last()) + ls.last() + seq!['\n']
    }
}

/// `s` holds no newline.
pub open spec fn one_line(s: Seq<char>) -> bool {
    forall|i: int| 0 <= i < s.len() ==> s[i] != '\n'
}
/// `k` is one of the four keys.
pub open spec fn known_key(k: Seq<char>) -> bool {
    k == "ssh_identity_file"@ || k == "username"@ || k == "ip_address"@ || k == "use_sudo"@
}

/// A value that a key line can carry unchanged: not empty, on one line,
/// and neither starting nor ending with whitespace.
pub open spec fn plain_value(v: Seq<char>) -> bool {
    v.len() > 0 && !is_ws(v[0]) && !is_ws(v.last()) && one_line(v)
}

/// A line that parsing skips: on one line, and blank or a comment once
/// trimmed.
pub open spec fn ignored_line(c: Seq<char>) -> bool {
    one_line(c) && (trim(c).len() == 0 || trim(c)[0] == '#')
}

/// Every line of `ls` is skipped by parsing.
pub open spec fn all_ignored(ls: Seq<Seq<char>>) -> bool {
    forall|i: int| 0 <= i < ls.len() ==> ignored_line(#[trigger] ls[i])
}

/// Every line of `ls` holds no newline.
pub open spec fn single_lines(ls: Seq<Seq<char>>) -> bool {
    forall|i: int| 0 <= i < ls.len() ==> one_line(#[trigger] ls[i])
}

/// The blanks of a key line: before and after the key, before and after
/// the value.
pub type Padding = (Seq<char>, Seq<char>, Seq<char>, Seq<char>);

/// All four parts of a padding are spaces and tabs.
pub open spec fn padding_ok(p: Padding) -> bool {
    blanks(p.0) && blanks(p.1) && blanks(p.2) && blanks(p.3)
}

/// `key=value` with the blanks of `p` around the key and the value.
pub open spec fn key_line(key: Seq<char>, value: Seq<char>, p: Padding) -> Seq<char> {
    p.0 + key + p.1 + seq!['='] + p.2 + value + p.3
}

/// The scan state with `key` set to `value`.
pub open spec fn with_key(st: ScanState, key: Seq<char>, value: Seq<char>) -> ScanState {
    match st {
        Ok((ssh, user, ip, sudo)) => if key == "ssh_identity_file"@ {
            Ok((Some(value), user, ip, sudo))
        } else if key == "username"@ {
            Ok((ssh, Some(value), ip, sudo))
        } else if key == "ip_address"@ {
            Ok((ssh, user, Some(value), sudo))
        } else {
            Ok((ssh, user, ip, Some(value)))
        },
        Err(bad) => Err(bad),
    }
}

/// The first `c` in `a + b`, when `a` holds none, is the first in `b`.
proof fn lemma_first_index_after(a: Seq<char>, b: Seq<char>, c: char)
    requires
        forall|i: int| 0 <= i < a.len() ==> a[i] != c,
    ensures
        first_index(a + b, c) == match first_index(b, c) {
            Some(k) => Some(k + a.len()),
            None => None::<int>,
        },
    decreases a.len(),
{
    if a.len() == 0 {
        assert(a + b =~= b);
    } else {
        assert((a + b)[0] == a[0]);
        assert((a + b).drop_first() =~= a.drop_first() + b);
        lemma_first_index_after(a.drop_first(), b, c);
    }
}

/// Facts about the four keys.
proof fn lemma_keys()
    ensures
        forall|k: Seq<char>|
            #[trigger] known_key(k) ==> k.len() > 0 && k[0] != '#' && !is_ws(k[0]) && !is_ws(k.last())
                && one_line(k) && (forall|i: int| 0 <= i < k.len() ==> k[i] != '=' && !is_ws(k[i])),
        "ssh_identity_file"@ != "username"@,
        "ssh_identity_file"@ != "ip_address"@,
        "ssh_identity_file"@ != "use_sudo"@,
        "username"@ != "ip_address"@,
        "username"@ != "use_sudo"@,
        "ip_address"@ != "use_sudo"@,
{
    reveal_strlit("ssh_identity_file");
    reveal_strlit("username");
    reveal_strlit("ip_address");
    reveal_strlit("use_sudo");
    let a = "ssh_identity_file"@;
    let b = "username"@;
    let c = "ip_address"@;
    let d = "use_sudo"@;
    assert(forall|i: int| 0 <= i < a.len() ==> a[i] != '=' && !is_ws(a[i]) && a[i] != '\n');
    assert(forall|i: int| 0 <= i < b.len() ==> b[i] != '=' && !is_ws(b[i]) && b[i] != '\n');
    assert(forall|i: int| 0 <= i < c.len() ==> c[i] != '=' && !is_ws(c[i]) && c[i] != '\n');
    assert(forall|i: int| 0 <= i < d.len() ==> d[i] != '=' && !is_ws(d[i]) && d[i] != '\n');
    assert(a.len() != b.len() && a.len() != c.len() && b.len() != c.len());
    assert(a.len() != d.len() && c.len() != d.len());
    assert(b[3] != d[3]);
}

/// A key line sets its key to its value.
proof fn lemma_key_line(st: ScanState, key: Seq<char>, value: Seq<char>, p: Padding)
    requires
        st is Ok,
        known_key(key),
        plain_value(value),
        padding_ok(p),
    ensures
        scan_line(st, key_line(key, value, p)) == with_key(st, key, value),
        one_line(key_line(key, value, p)),
{
    lemma_keys();
    let (w1, w2, w3, w4) = p;
    let line = key_line(key, value, p);
    let core = key + w2 + seq!['='] + w3 + value;
    assert(line =~= w1 + core + w4);
    assert(core[0] == key[0]);
    assert(core.last() == value.last());
    lemma_trim_padded(w1, core, w4);
    let t = trim(line);
    assert(t == core);
    let head = key + w2;
    let tail = seq!['='] + w3 + value;
    assert(core =~= head + tail);
    assert forall|i: int| 0 <= i < head.len() implies head[i] != '=' by {
        if i < key.len() {
            assert(head[i] == key[i]);
        } else {
            assert(head[i] == w2[i - key.len()]);
        }
    }
    lemma_first_index_after(head, tail, '=');
    assert(first_index(tail, '=') == Some(0int));
    let k = head.len() as int;
    assert(first_index(t, '=') == Some(k));
    assert(t.take(k) =~= head);
    assert(head =~= Seq::<char>::empty() + key + w2);
    lemma_trim_padded(Seq::<char>::empty(), key, w2);
    assert(t.skip(k + 1) =~= w3 + value + Seq::<char>::empty());
    lemma_trim_padded(w3, value, Seq::<char>::empty());
    assert(trim(t.take(k)) == key);
    assert(trim(t.skip(k + 1)) == value);
    assert forall|i: int| 0 <= i < line.len() implies line[i] != '\n' by {
        let a = w1.len();
        let b = a + key.len();
        let c = b + w2.len();
        let d = c + 1;
        let e = d + w3.len();
        let f = e + value.len();
        if i < a {
            assert(line[i] == w1[i]);
        } else if i < b {
            assert(line[i] == key[i - a]);
        } else if i < c {
            assert(line[i] == w2[i - b]);
        } else if i < d {
            assert(line[i] == '=');
        } else if i < e {
            assert(line[i] == w3[i - d]);
        } else if i < f {
            assert(line[i] == value[i - e]);
        } else {
            assert(line[i] == w4[i - f]);
        }
    }
}

/// Scanning one more line applies it to the state reached.
proof fn lemma_scan_push(ls: Seq<Seq<char>>, x: Seq<char>)
    ensures
        scan_lines(ls.push(x)) == scan_line(scan_lines(ls), x),
{
    assert(ls.push(x).drop_last() =~= ls);
}

/// Lines that parsing skips leave the state as it was.
proof fn lemma_ignored_lines(a: Seq<Seq<char>>, b: Seq<Seq<char>>)
    requires
        all_ignored(b),
    ensures
        scan_lines(a + b) == scan_lines(a),
        single_lines(b),
    decreases b.len(),
{
    if b.len() == 0 {
        assert(a + b =~= a);
    } else {
        let b0 = b.drop_last();
        assert forall|i: int| 0 <= i < b0.len() implies ignored_line(#[trigger] b0[i]) by {
            assert(b0[i] == b[i]);
        }
        lemma_ignored_lines(a, b0);
        assert(a + b =~= (a + b0).push(b.last()));
        lemma_scan_push(a + b0, b.last());
        assert(ignored_line(b[b.len() - 1]));
        assert forall|i: int| 0 <= i < b.len() implies one_line(#[trigger] b[i]) by {
            assert(ignored_line(b[i]));
        }
    }
}

/// A key line after `a` sets its key in the state that `a` reaches.
proof fn lemma_key_append(a: Seq<Seq<char>>, key: Seq<char>, value: Seq<char>, p: Padding)
    requires
        scan_lines(a) is Ok,
        known_key(key),
        plain_value(value),
        padding_ok(p),
    ensures
        scan_lines(a + seq![key_line(key, value, p)]) == with_key(scan_lines(a), key, value),
        single_lines(seq![key_line(key, value, p)]),
{
    let x = key_line(key, value, p);
    assert(a + seq![x] =~= a.push(x));
    lemma_scan_push(a, x);
    lemma_key_line(scan_lines(a), key, value, p);
}

/// Two runs of single lines make one.
proof fn lemma_single_concat(a: Seq<Seq<char>>, b: Seq<Seq<char>>)
    requires
        single_lines(a),
        single_lines(b),
    ensures
        single_lines(a + b),
{
    assert forall|i: int| 0 <= i < (a + b).len() implies one_line(#[trigger] (a + b)[i]) by {
        if i < a.len() {
            assert((a + b)[i] == a[i]);
        } else {
            assert((a + b)[i] == b[i - a.len()]);
        }
    }
}

/// Splitting newline-ended lines at newlines gives the lines back, and an
/// empty piece after the last newline.
proof fn lemma_split_lines(ls: Seq<Seq<char>>)
    requires
        single_lines(ls),
    ensures
        split_on(lines_text(ls), '\n') == ls.push(Seq::<char>::empty()),
    decreases ls.len(),
{
    if ls.len() == 0 {
        assert(split_on(Seq::<char>::empty(), '\n') == seq![Seq::<char>::empty()]);
        assert(ls.push(Seq::<char>::empty()) =~= seq![Seq::<char>::empty()]);
    } else {
        let prev = ls.drop_last();
        assert forall|i: int| 0 <= i < prev.len() implies one_line(#[trigger] prev[i]) by {
            assert(prev[i] == ls[i]);
        }
        lemma_split_lines(prev);
        let t = lines_text(prev);
        let x = ls.last();
        assert(one_line(ls[ls.len() - 1]));
        lemma_split_on_extend(t, x, '\n');
        let p = prev.push(Seq::<char>::empty());
        assert(p.update(p.len() - 1, p.last() + x) =~= ls) by {
            assert(Seq::<char>::empty() + x =~= x);
        }
        let full = t + x + seq!['\n'];
        assert(full =~= (t + x).push('\n'));
        assert(full.drop_last() =~= t + x);
        assert(full.last() == '\n');
    }
}

/// The lines of a configuration: the identity file, user and address key
/// lines in that order, then a `use_sudo` line when `sudo` holds a value,
/// each key line with its own blanks, and runs of skipped lines (blank or
/// comment) before, between and after them.
pub open spec fn config_lines(
    ssh: Seq<char>,
    user: Seq<char>,
    ip: Seq<char>,
    sudo: Option<Seq<char>>,
    p1: Padding,
    p2: Padding,
    p3: Padding,
    p4: Padding,
    g0: Seq<Seq<char>>,
    g1: Seq<Seq<char>>,
    g2: Seq<Seq<char>>,
    g3: Seq<Seq<char>>,
    g4: Seq<Seq<char>>,
) -> Seq<Seq<char>> {
    let sudo_part: Seq<Seq<char>> = match sudo {
        Some(v) => seq![key_line("use_sudo"@, v, p4)],
        None => Seq::empty(),
    };
    g0 + seq![key_line("ssh_identity_file"@, ssh, p1)] + g1 + seq![key_line("username"@, user, p2)]
        + g2 + seq![key_line("ip_address"@, ip, p3)] + g3 + sudo_part + g4
}

/// Writing the fields as `key = value` lines, with any blanks around keys
/// and values and any blank or comment lines around the key lines, and
/// parsing the text gives back exactly the three values, and `use_sudo`
/// on exactly when its line is present with the value `true`.
pub proof fn law_config_round_trip(
    ssh: Seq<char>,
    user: Seq<char>,
    ip: Seq<char>,
    sudo: Option<Seq<char>>,
    p1: Padding,
    p2: Padding,
    p3: Padding,
    p4: Padding,
    g0: Seq<Seq<char>>,
    g1: Seq<Seq<char>>,
    g2: Seq<Seq<char>>,
    g3: Seq<Seq<char>>,
    g4: Seq<Seq<char>>,
)
    requires
        plain_value(ssh),
        plain_value(user),
        plain_value(ip),
        sudo matches Some(v) ==> plain_value(v),
        padding_ok(p1),
        padding_ok(p2),
        padding_ok(p3),
        padding_ok(p4),
        all_ignored(g0),
        all_ignored(g1),
        all_ignored(g2),
        all_ignored(g3),
        all_ignored(g4),
    ensures
        config_outcome(
            lines_text(config_lines(ssh, user, ip, sudo, p1, p2, p3, p4, g0, g1, g2, g3, g4)),
        ) == ConfigOutcome::Parsed(ssh, user, ip, sudo_flag(sudo)),
{
    lemma_keys();
    let k1 = "ssh_identity_file"@;
    let k2 = "username"@;
    let k3 = "ip_address"@;
    let k4 = "use_sudo"@;
    assert(known_key(k1) && known_key(k2) && known_key(k3) && known_key(k4));
    let l1 = seq![key_line(k1, ssh, p1)];
    let l2 = seq![key_line(k2, user, p2)];
    let l3 = seq![key_line(k3, ip, p3)];
    let sudo_part: Seq<Seq<char>> = match sudo {
        Some(v) => seq![key_line(k4, v, p4)],
        None => Seq::empty(),
    };
    let empty = Seq::<Seq<char>>::empty();
    assert(scan_lines(empty) == Ok::<_, Seq<char>>((None::<Seq<char>>, None::<Seq<char>>, None::<Seq<char>>, None::<Seq<char>>)));
    lemma_ignored_lines(empty, g0);
    assert(empty + g0 =~= g0);
    lemma_key_append(g0, k1, ssh, p1);
    let a1 = g0 + l1;
    lemma_single_concat(g0, l1);
    let b1 = a1 + g1;
    lemma_ignored_lines(a1, g1);
    lemma_single_concat(a1, g1);
    lemma_key_append(b1, k2, user, p2);
    let a2 = b1 + l2;
    lemma_single_concat(b1, l2);
    let b2 = a2 + g2;
    lemma_ignored_lines(a2, g2);
    lemma_single_concat(a2, g2);
    lemma_key_append(b2, k3, ip, p3);
    let a3 = b2 + l3;
    lemma_single_concat(b2, l3);
    let b3 = a3 + g3;
    lemma_ignored_lines(a3, g3);
    lemma_single_concat(a3, g3);
    let done: ScanState = Ok((Some(ssh), Some(user), Some(ip), sudo));
    let a4 = b3 + sudo_part;
    assert(scan_lines(a4) == done && single_lines(a4)) by {
        match sudo {
            Some(v) => {
                lemma_key_append(b3, k4, v, p4);
                lemma_single_concat(b3, sudo_part);
            },
            None => {
                assert(b3 + sudo_part =~= b3);
            },
        }
    }
    let ls = a4 + g4;
    lemma_ignored_lines(a4, g4);
    lemma_single_concat(a4, g4);
    assert(ls == config_lines(ssh, user, ip, sudo, p1, p2, p3, p4, g0, g1, g2, g3, g4));
    assert(scan_lines(ls) == done);
    lemma_split_lines(ls);
    let content = lines_text(ls);
    lemma_scan_push(ls, Seq::<char>::empty());
    assert(trim(Seq::<char>::empty()) =~= Seq::<char>::empty()) by {
        assert(trim_start(Seq::<char>::empty()) == Seq::<char>::empty());
        assert(trim_end(Seq::<char>::empty()) == Seq::<char>::empty());
    }
    assert(scan_lines(split_on(content, '\n')) == done);
}

} // verus!
