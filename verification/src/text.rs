//! Character-level helpers shared by the parsers and formatters: conversion
//! between strings and character vectors, Unicode whitespace, trimming,
//! substring search, lexicographic order and decimal rendering.
use vstd::prelude::*;

verus! {

broadcast use vstd::string::group_string_axioms;

/// The characters of `s`, in order.
pub fn chars_of(s: &str) -> (v: Vec<char>)
    ensures
        v@ == s@,
{
    let mut v: Vec<char> = Vec::new();
    for c in it: s.chars()
        invariant
            v@ == it.seq().take(it.index() as int),
    {
        v.push(c);
    }
    v
}

/// `String::push`: appends one character at the end of the string.
#[verifier::external_body]
pub(crate) fn push_char(s: &mut String, c: char)
    ensures
        final(s)@ == old(s)@.push(c),
{
    s.push(c);
}

/// `String::pop`: removes and returns the last character, if there is one.
#[verifier::external_body]
pub(crate) fn pop_char(s: &mut String) -> (r: Option<char>)
    ensures
        old(s)@.len() == 0 ==> r is None && final(s)@ == old(s)@,
        old(s)@.len() > 0 ==> r == Some(old(s)@.last()) && final(s)@ == old(s)@.drop_last(),
{
    s.pop()
}

/// Appends every character of `v` to `s`.
pub fn push_chars(s: &mut String, v: &[char])
    ensures
        final(s)@ == old(s)@ + v@,
{
    let ghost start = s@;
    for i in 0..v.len()
        invariant
            s@ == start + v@.take(i as int),
    {
        push_char(s, v[i]);
        assert(v@.take(i + 1) == v@.take(i as int).push(v@[i as int]));
    }
    assert(v@.take(v@.len() as int) == v@);
}

/// Appends the characters of `t` to `s`.
pub fn push_str(s: &mut String, t: &str)
    ensures
        final(s)@ == old(s)@ + t@,
{
    let v = chars_of(t);
    push_chars(s, v.as_slice());
}

/// A string made of the characters of `v`.
pub fn string_from_chars(v: &[char]) -> (s: String)
    ensures
        s@ == v@,
{
    let mut s = String::new();
    push_chars(&mut s, v);
    s
}

/// A string made of the characters `v[lo..hi]`.
pub fn string_from_range(v: &[char], lo: usize, hi: usize) -> (s: String)
    requires
        lo <= hi <= v@.len(),
    ensures
        s@ == v@.subrange(lo as int, hi as int),
{
    let mut s = String::new();
    let mut i = lo;
    while i < hi
        invariant
            lo <= i <= hi <= v@.len(),
            s@ == v@.subrange(lo as int, i as int),
        decreases hi - i,
    {
        push_char(&mut s, v[i]);
        assert(v@.subrange(lo as int, i + 1) == v@.subrange(lo as int, i as int).push(v@[i as int]));
        i = i + 1;
    }
    s
}

/// A copy of `s`.
pub fn copy_string(s: &String) -> (r: String)
    ensures
        r == *s,
        r@ == s@,
{
    s.clone()
}

/// The lowercase mapping of `s` as `str::to_lowercase` computes it (Unicode
/// case mapping, including its context-dependent rules).
pub uninterp spec fn spec_lowercase(s: Seq<char>) -> Seq<char>;

/// Whether every character of `s` is ASCII.
pub open spec fn is_ascii_text(s: Seq<char>) -> bool {
    forall|i: int| 0 <= i < s.len() ==> (s[i] as int) < 128
}

/// `c` with `A`-`Z` mapped to `a`-`z`.
pub open spec fn ascii_lower_char(c: char) -> char {
    if 'A' <= c && c <= 'Z' {
        ((c as int) + 32) as char
    } else {
        c
    }
}

/// `s` with `A`-`Z` mapped to `a`-`z`.
pub open spec fn ascii_lower(s: Seq<char>) -> Seq<char> {
    s.map_values(|c: char| ascii_lower_char(c))
}

/// `str::to_lowercase`. The result is a function of the characters of `s`
/// alone; on ASCII text it maps `A`-`Z` to `a`-`z` and keeps every other
/// character. What it does elsewhere (Unicode's case tables) is not stated
/// here.
#[verifier::external_body]
pub(crate) fn to_lowercase(s: &str) -> (r: String)
    ensures
        r@ == spec_lowercase(s@),
        is_ascii_text(s@) ==> r@ == ascii_lower(s@),
{
    s.to_lowercase()
}

/// The characters of the lowercase mapping of `s`.
pub fn lowercase_chars(s: &str) -> (r: Vec<char>)
    ensures
        r@ == spec_lowercase(s@),
        is_ascii_text(s@) ==> r@ == ascii_lower(s@),
{
    let l = to_lowercase(s);
    chars_of(l.as_str())
}

/// Unicode `White_Space`, the property that `char::is_whitespace` tests.
pub open spec fn is_ws(c: char) -> bool {
    let u = c as int;
    ||| 0x09 <= u <= 0x0d
    ||| u == 0x20
    ||| u == 0x85
    ||| u == 0xa0
    ||| u == 0x1680
    ||| 0x2000 <= u <= 0x200a
    ||| u == 0x2028
    ||| u == 0x2029
    ||| u == 0x202f
    ||| u == 0x205f
    ||| u == 0x3000
}

/// Whether `c` is Unicode whitespace.
pub fn is_whitespace(c: char) -> (b: bool)
    ensures
        b == is_ws(c),
{
    let u = c as u32;
    (0x09 <= u && u <= 0x0d) || u == 0x20 || u == 0x85 || u == 0xa0 || u == 0x1680 || (0x2000
        <= u && u <= 0x200a) || u == 0x2028 || u == 0x2029 || u == 0x202f || u == 0x205f || u
        == 0x3000
}

/// `s` without its leading whitespace.
pub open spec fn trim_start(s: Seq<char>) -> Seq<char>
    decreases s.len(),
{
    if s.len() > 0 && is_ws(s[0]) {
        trim_start(s.drop_first())
    } else {
        s
    }
}

/// `s` without its trailing whitespace.
pub open spec fn trim_end(s: Seq<char>) -> Seq<char>
    decreases s.len(),
{
    if s.len() > 0 && is_ws(s.last()) {
        trim_end(s.drop_last())
    } else {
        s
    }
}

/// `s` without leading and trailing whitespace (what `str::trim` gives).
pub open spec fn trim(s: Seq<char>) -> Seq<char> {
    trim_end(trim_start(s))
}

/// The bounds `(lo, hi)` of `trim(v[from..to])` inside `v`.
pub fn trim_bounds(v: &[char], from: usize, to: usize) -> (r: (usize, usize))
    requires
        from <= to <= v@.len(),
    ensures
        from <= r.0 <= r.1 <= to,
        v@.subrange(r.0 as int, r.1 as int) == trim(v@.subrange(from as int, to as int)),
{
    let mut lo = from;
    while lo < to && is_whitespace(v[lo])
        invariant
            from <= lo <= to <= v@.len(),
            trim_start(v@.subrange(from as int, to as int)) == trim_start(
                v@.subrange(lo as int, to as int),
            ),
        decreases to - lo,
    {
        assert(v@.subrange(lo as int, to as int).drop_first() == v@.subrange(lo + 1, to as int));
        lo = lo + 1;
    }
    let mut hi = to;
    while hi > lo && is_whitespace(v[hi - 1])
        invariant
            from <= lo <= hi <= to <= v@.len(),
            trim_end(v@.subrange(lo as int, to as int)) == trim_end(
                v@.subrange(lo as int, hi as int),
            ),
        decreases hi - lo,
    {
        assert(v@.subrange(lo as int, hi as int).drop_last() == v@.subrange(lo as int, hi - 1));
        hi = hi - 1;
    }
    (lo, hi)
}

/// The characters of `trim(s)`.
pub fn trimmed_chars(s: &str) -> (r: Vec<char>)
    ensures
        r@ == trim(s@),
{
    let v = chars_of(s);
    let (lo, hi) = trim_bounds(v.as_slice(), 0, v.len());
    assert(v@.subrange(0, v@.len() as int) == v@);
    let mut r: Vec<char> = Vec::new();
    let mut i = lo;
    while i < hi
        invariant
            lo <= i <= hi <= v@.len(),
            r@ == v@.subrange(lo as int, i as int),
        decreases hi - i,
    {
        r.push(v[i]);
        assert(v@.subrange(lo as int, i + 1) == v@.subrange(lo as int, i as int).push(v@[i as int]));
        i = i + 1;
    }
    r
}

/// Whether `a` and `b` hold the same characters.
pub fn chars_equal(a: &[char], b: &[char]) -> (r: bool)
    ensures
        r == (a@ == b@),
{
    if a.len() != b.len() {
        return false;
    }
    for i in 0..a.len()
        invariant
            a@.len() == b@.len(),
            forall|k: int| 0 <= k < i ==> a@[k] == b@[k],
    {
        if a[i] != b[i] {
            return false;
        }
    }
    assert(a@ =~= b@);
    true
}

/// Whether `a` equals the text of `lit`.
pub fn chars_equal_str(a: &[char], lit: &str) -> (r: bool)
    ensures
        r == (a@ == lit@),
{
    let b = chars_of(lit);
    chars_equal(a, b.as_slice())
}

/// Whether two texts are the same.
pub fn strings_equal(a: &str, b: &str) -> (r: bool)
    ensures
        r == (a@ == b@),
{
    let x = chars_of(a);
    let y = chars_of(b);
    chars_equal(x.as_slice(), y.as_slice())
}

/// Whether `prefix` is a prefix of `s`.
pub open spec fn starts_with(s: Seq<char>, prefix: Seq<char>) -> bool {
    prefix.len() <= s.len() && s.take(prefix.len() as int) == prefix
}

/// Whether `needle` occurs in `hay` starting at position `i`.
pub open spec fn occurs_at(hay: Seq<char>, needle: Seq<char>, i: int) -> bool {
    0 <= i && i + needle.len() <= hay.len() && hay.subrange(i, i + needle.len()) == needle
}

/// Whether `needle` occurs somewhere in `hay` (what `str::contains` tests).
pub open spec fn contains_seq(hay: Seq<char>, needle: Seq<char>) -> bool {
    exists|i: int| occurs_at(hay, needle, i)
}

/// Whether `needle` occurs in `hay` at position `i`.
fn occurs_at_exec(hay: &[char], needle: &[char], i: usize) -> (r: bool)
    ensures
        r == occurs_at(hay@, needle@, i as int),
{
    let n: usize = hay.len();
    if i > n || needle.len() > n - i {
        return false;
    }
    let mut k: usize = 0;
    while k < needle.len()
        invariant
            n == hay@.len(),
            i + needle@.len() <= hay@.len(),
            k <= needle@.len(),
            forall|m: int| 0 <= m < k ==> hay@[i + m] == needle@[m],
        decreases needle@.len() - k,
    {
        assert(i + k < hay@.len());
        let idx: usize = i + k;
        if hay[idx] != needle[k] {
            assert(hay@.subrange(i as int, i + needle@.len())[k as int] != needle@[k as int]);
            return false;
        }
        k = k + 1;
    }
    assert(hay@.subrange(i as int, i + needle@.len()) =~= needle@);
    true
}

/// Whether `needle` occurs somewhere in `hay`.
pub fn contains_chars(hay: &[char], needle: &[char]) -> (r: bool)
    ensures
        r == contains_seq(hay@, needle@),
{
    if needle.len() > hay.len() {
        assert forall|i: int| !occurs_at(hay@, needle@, i) by {}
        return false;
    }
    let mut i: usize = 0;
    loop
        invariant
            i <= hay@.len(),
            forall|j: int| 0 <= j < i ==> !occurs_at(hay@, needle@, j),
        decreases hay@.len() - i,
    {
        if needle.len() > hay.len() - i {
            assert forall|j: int| !occurs_at(hay@, needle@, j) by {
                if 0 <= j && j + needle@.len() <= hay@.len() {
                    assert(j < i);
                }
            }
            return false;
        }
        if occurs_at_exec(hay, needle, i) {
            return true;
        }
        assert(i < hay@.len()) by {
            if i == hay@.len() {
                assert(hay@.subrange(i as int, i + needle@.len()) =~= needle@);
            }
        }
        i = i + 1;
    }
}

/// The first position at which `needle` occurs in `hay`, if any.
pub open spec fn first_occurrence(hay: Seq<char>, needle: Seq<char>, i: int) -> bool {
    occurs_at(hay, needle, i) && forall|j: int| 0 <= j < i ==> !occurs_at(hay, needle, j)
}

/// The first position at which `needle` occurs in `hay` at or after `from`.
pub fn find_chars(hay: &[char], needle: &[char]) -> (r: Option<usize>)
    ensures
        r is None <==> !contains_seq(hay@, needle@),
        r matches Some(i) ==> first_occurrence(hay@, needle@, i as int),
{
    if needle.len() > hay.len() {
        assert forall|i: int| !occurs_at(hay@, needle@, i) by {}
        return None;
    }
    let mut i: usize = 0;
    loop
        invariant
            i <= hay@.len(),
            forall|j: int| 0 <= j < i ==> !occurs_at(hay@, needle@, j),
        decreases hay@.len() - i,
    {
        if needle.len() > hay.len() - i {
            assert forall|j: int| !occurs_at(hay@, needle@, j) by {
                if 0 <= j && j + needle@.len() <= hay@.len() {
                    assert(j < i);
                }
            }
            return None;
        }
        if occurs_at_exec(hay, needle, i) {
            return Some(i);
        }
        assert(i < hay@.len()) by {
            if i == hay@.len() {
                assert(hay@.subrange(i as int, i + needle@.len()) =~= needle@);
            }
        }
        i = i + 1;
    }
}

/// The pieces of `s` between occurrences of `sep` (what `str::split` yields):
/// always at least one piece, and one more than the number of separators.
pub open spec fn split_on(s: Seq<char>, sep: char) -> Seq<Seq<char>>
    decreases s.len(),
{
    if s.len() == 0 {
        seq![Seq::empty()]
    } else {
        let prev = split_on(s.drop_last(), sep);
        if s.last() == sep {
            prev.push(Seq::empty())
        } else {
            prev.update(prev.len() - 1, prev.last().push(s.last()))
        }
    }
}

/// `split_on` never yields an empty list of pieces.
pub proof fn lemma_split_on_nonempty(s: Seq<char>, sep: char)
    ensures
        split_on(s, sep).len() >= 1,
    decreases s.len(),
{
    if s.len() > 0 {
        lemma_split_on_nonempty(s.drop_last(), sep);
    }
}

/// Extending `s` by one character either starts a new piece (a separator) or
/// extends the last piece.
pub proof fn lemma_split_on_step(s: Seq<char>, i: int, sep: char)
    requires
        0 <= i < s.len(),
    ensures
        split_on(s.take(i), sep).len() >= 1,
        s[i] == sep ==> split_on(s.take(i + 1), sep) == split_on(s.take(i), sep).push(Seq::empty()),
        s[i] != sep ==> split_on(s.take(i + 1), sep) == split_on(s.take(i), sep).update(
            split_on(s.take(i), sep).len() - 1,
            split_on(s.take(i), sep).last().push(s[i]),
        ),
{
    lemma_split_on_nonempty(s.take(i), sep);
    assert(s.take(i + 1).drop_last() == s.take(i));
}

/// The pieces of `s` between whitespace characters.
pub open spec fn split_ws(s: Seq<char>) -> Seq<Seq<char>>
    decreases s.len(),
{
    if s.len() == 0 {
        seq![Seq::empty()]
    } else {
        let prev = split_ws(s.drop_last());
        if is_ws(s.last()) {
            prev.push(Seq::empty())
        } else {
            prev.update(prev.len() - 1, prev.last().push(s.last()))
        }
    }
}

/// The whitespace-separated words of `s` (what `str::split_whitespace`
/// yields).
pub open spec fn words(s: Seq<char>) -> Seq<Seq<char>> {
    split_ws(s).filter(|w: Seq<char>| w.len() > 0)
}

/// The texts held by a list of character vectors.
pub open spec fn char_views(vs: Seq<Vec<char>>) -> Seq<Seq<char>> {
    vs.map_values(|c: Vec<char>| c@)
}

proof fn lemma_words_push(s: Seq<Seq<char>>, x: Seq<char>)
    ensures
        s.push(x).filter(|w: Seq<char>| w.len() > 0) == (if x.len() > 0 {
            s.filter(|w: Seq<char>| w.len() > 0).push(x)
        } else {
            s.filter(|w: Seq<char>| w.len() > 0)
        }),
{
    reveal_with_fuel(Seq::filter, 1);
    assert(s.push(x).drop_last() == s);
}

/// `s` has no whitespace character.
pub open spec fn no_ws(s: Seq<char>) -> bool {
    forall|i: int| 0 <= i < s.len() ==> !is_ws(#[trigger] s[i])
}

/// A text without whitespace is a single piece.
proof fn lemma_split_ws_word(d: Seq<char>)
    requires
        no_ws(d),
    ensures
        split_ws(d) == seq![d],
    decreases d.len(),
{
    if d.len() > 0 {
        assert(no_ws(d.drop_last()));
        lemma_split_ws_word(d.drop_last());
        assert(!is_ws(d[d.len() - 1]));
        assert(d.drop_last().push(d.last()) =~= d);
        assert(seq![d.drop_last()].update(0, d) =~= seq![d]);
    } else {
        assert(d =~= Seq::<char>::empty());
    }
}

/// A word followed by nothing, or by whitespace and anything, is the
/// first piece; after whitespace there is at least one more.
proof fn lemma_split_ws_first(d: Seq<char>, y: Seq<char>)
    requires
        no_ws(d),
        y.len() == 0 || is_ws(y[0]),
    ensures
        split_ws(d + y).len() >= 1,
        split_ws(d + y)[0] == d,
        y.len() > 0 ==> split_ws(d + y).len() >= 2,
    decreases y.len(),
{
    if y.len() == 0 {
        assert(d + y =~= d);
        lemma_split_ws_word(d);
    } else {
        let y2 = y.drop_last();
        lemma_split_ws_first(d, y2);
        assert((d + y).drop_last() =~= d + y2);
        assert((d + y).last() == y.last());
        if y2.len() == 0 {
            assert(d + y2 =~= d);
            lemma_split_ws_word(d);
            assert(is_ws(y.last()));
        }
    }
}

/// The first element of a filtered list, when the list starts with an
/// element that passes.
proof fn lemma_words_first(x: Seq<Seq<char>>)
    requires
        x.len() >= 1,
        x[0].len() > 0,
    ensures
        x.filter(|w: Seq<char>| w.len() > 0).len() >= 1,
        x.filter(|w: Seq<char>| w.len() > 0)[0] == x[0],
    decreases x.len(),
{
    let y = x.drop_last();
    lemma_words_push(y, x.last());
    assert(y.push(x.last()) =~= x);
    if y.len() >= 1 {
        lemma_words_first(y);
        assert(y[0] == x[0]);
    } else {
        reveal_with_fuel(Seq::filter, 1);
        assert(y.filter(|w: Seq<char>| w.len() > 0) =~= Seq::<Seq<char>>::empty());
    }
}

/// The first word of a text that starts with a word `d` followed by
/// nothing or by whitespace is `d`.
pub proof fn lemma_first_word(d: Seq<char>, y: Seq<char>)
    requires
        d.len() > 0,
        no_ws(d),
        y.len() == 0 || is_ws(y[0]),
    ensures
        words(d + y).len() >= 1,
        words(d + y)[0] == d,
{
    lemma_split_ws_first(d, y);
    lemma_words_first(split_ws(d + y));
}

/// Trimming the end of `s` keeps a prefix of it, and keeps at least the
/// first `k` characters when the `k`-th is not whitespace.
pub proof fn lemma_trim_end_prefix(s: Seq<char>, k: int)
    requires
        0 < k <= s.len(),
        !is_ws(s[k - 1]),
    ensures
        k <= trim_end(s).len() <= s.len(),
        trim_end(s) == s.take(trim_end(s).len() as int),
    decreases s.len(),
{
    if is_ws(s.last()) {
        lemma_trim_end_prefix(s.drop_last(), k);
        let t = trim_end(s.drop_last());
        assert(s.drop_last().take(t.len() as int) =~= s.take(t.len() as int));
    } else {
        assert(s.take(s.len() as int) =~= s);
    }
}

/// `s` is made of spaces and tabs only.
pub open spec fn blanks(s: Seq<char>) -> bool {
    forall|i: int| 0 <= i < s.len() ==> s[i] == ' ' || s[i] == '\t'
}

/// Leading blanks are trimmed away.
proof fn lemma_trim_start_blanks(w: Seq<char>, r: Seq<char>)
    requires
        blanks(w),
    ensures
        trim_start(w + r) == trim_start(r),
    decreases w.len(),
{
    if w.len() == 0 {
        assert(w + r =~= r);
    } else {
        assert(is_ws((w + r)[0]));
        assert((w + r).drop_first() =~= w.drop_first() + r);
        lemma_trim_start_blanks(w.drop_first(), r);
    }
}

/// Trailing blanks are trimmed away.
proof fn lemma_trim_end_blanks(r: Seq<char>, w: Seq<char>)
    requires
        blanks(w),
    ensures
        trim_end(r + w) == trim_end(r),
    decreases w.len(),
{
    if w.len() == 0 {
        assert(r + w =~= r);
    } else {
        assert((r + w).last() == w.last());
        assert(is_ws(w[w.len() - 1]));
        assert((r + w).drop_last() =~= r + w.drop_last());
        lemma_trim_end_blanks(r, w.drop_last());
    }
}

/// A text that starts and ends with non-whitespace, between blanks, trims
/// to itself.
pub proof fn lemma_trim_padded(w1: Seq<char>, x: Seq<char>, w2: Seq<char>)
    requires
        blanks(w1),
        blanks(w2),
        x.len() > 0,
        !is_ws(x[0]),
        !is_ws(x.last()),
    ensures
        trim(w1 + x + w2) == x,
{
    assert(w1 + x + w2 =~= w1 + (x + w2));
    lemma_trim_start_blanks(w1, x + w2);
    assert((x + w2)[0] == x[0]);
    assert(trim_start(x + w2) == x + w2);
    lemma_trim_end_blanks(x, w2);
}

/// Appending text without separators extends the last piece.
pub proof fn lemma_split_on_extend(s: Seq<char>, x: Seq<char>, sep: char)
    requires
        forall|i: int| 0 <= i < x.len() ==> x[i] != sep,
    ensures
        split_on(s + x, sep) == split_on(s, sep).update(
            split_on(s, sep).len() - 1,
            split_on(s, sep).last() + x,
        ),
    decreases x.len(),
{
    lemma_split_on_nonempty(s, sep);
    let p = split_on(s, sep);
    if x.len() == 0 {
        assert(s + x =~= s);
        assert(p.last() + x =~= p.last());
        assert(p.update(p.len() - 1, p.last()) =~= p);
    } else {
        let y = x.drop_last();
        lemma_split_on_extend(s, y, sep);
        assert((s + x).drop_last() =~= s + y);
        assert((s + x).last() == x[x.len() - 1]);
        let q = p.update(p.len() - 1, p.last() + y);
        assert(q.last() == p.last() + y);
        assert((p.last() + y).push(x.last()) =~= p.last() + x);
        assert(q.update(q.len() - 1, q.last().push(x.last())) =~= p.update(p.len() - 1, p.last() + x));
    }
}

/// `split_ws` never yields an empty list of pieces.
proof fn lemma_split_ws_nonempty(s: Seq<char>)
    ensures
        split_ws(s).len() >= 1,
    decreases s.len(),
{
    if s.len() > 0 {
        lemma_split_ws_nonempty(s.drop_last());
    }
}

/// Splitting at a whitespace character splits the two sides apart.
proof fn lemma_split_ws_concat(x: Seq<char>, c: char, y: Seq<char>)
    requires
        is_ws(c),
    ensures
        split_ws(x + seq![c] + y) == split_ws(x) + split_ws(y),
    decreases y.len(),
{
    let s = x + seq![c] + y;
    if y.len() == 0 {
        assert(s =~= x.push(c));
        assert(s.drop_last() =~= x);
        assert(split_ws(y) == seq![Seq::<char>::empty()]);
        assert(split_ws(x).push(Seq::<char>::empty()) =~= split_ws(x) + seq![Seq::<char>::empty()]);
    } else {
        let y2 = y.drop_last();
        lemma_split_ws_concat(x, c, y2);
        lemma_split_ws_nonempty(y2);
        assert(s.drop_last() =~= x + seq![c] + y2);
        assert(s.last() == y.last());
        let a = split_ws(x);
        let b = split_ws(y2);
        if is_ws(y.last()) {
            assert((a + b).push(Seq::<char>::empty()) =~= a + b.push(Seq::<char>::empty()));
        } else {
            assert((a + b).last() == b.last());
            assert((a + b).update((a + b).len() - 1, b.last().push(y.last())) =~= a + b.update(
                b.len() - 1,
                b.last().push(y.last()),
            ));
        }
    }
}

/// The words on both sides of a whitespace character.
pub proof fn lemma_words_concat(x: Seq<char>, c: char, y: Seq<char>)
    requires
        is_ws(c),
    ensures
        words(x + seq![c] + y) == words(x) + words(y),
{
    lemma_split_ws_concat(x, c, y);
    Seq::filter_distributes_over_add(split_ws(x), split_ws(y), |w: Seq<char>| w.len() > 0);
}

/// A single word is its own list of words.
pub proof fn lemma_words_word(w: Seq<char>)
    requires
        w.len() > 0,
        no_ws(w),
    ensures
        words(w) == seq![w],
{
    lemma_split_ws_word(w);
    lemma_words_push(Seq::<Seq<char>>::empty(), w);
    assert(Seq::<Seq<char>>::empty().push(w) =~= seq![w]);
    reveal_with_fuel(Seq::filter, 1);
}

/// The empty text has no words.
pub proof fn lemma_words_nothing()
    ensures
        words(Seq::<char>::empty()) == Seq::<Seq<char>>::empty(),
{
    assert(split_ws(Seq::<char>::empty()) == seq![Seq::<char>::empty()]);
    lemma_words_push(Seq::<Seq<char>>::empty(), Seq::<char>::empty());
    assert(Seq::<Seq<char>>::empty().push(Seq::<char>::empty()) =~= seq![Seq::<char>::empty()]);
    reveal_with_fuel(Seq::filter, 1);
}

/// Words separated by single spaces, with no other whitespace and none at
/// either end.
pub open spec fn single_spaced(s: Seq<char>) -> bool {
    &&& s.len() > 0
    &&& forall|i: int|
        0 <= i < s.len() && #[trigger] is_ws(s[i]) ==> s[i] == ' ' && 0 < i < s.len() - 1 && !is_ws(
            s[i - 1],
        ) && !is_ws(s[i + 1])
}

/// A single-spaced text is its words joined by single spaces.
pub proof fn lemma_single_spaced_words(s: Seq<char>)
    requires
        single_spaced(s),
    ensures
        words(s).len() >= 1,
        join_with(words(s), ' ') == s,
    decreases s.len(),
{
    let n = s.len();
    let c = s.last();
    assert(!is_ws(s[n - 1]));
    if n == 1 {
        assert(no_ws(s));
        lemma_words_word(s);
    } else {
        let s1 = s.drop_last();
        if !is_ws(s1.last()) {
            assert(single_spaced(s1)) by {
                assert forall|i: int| 0 <= i < s1.len() && #[trigger] is_ws(s1[i]) implies s1[i] == ' '
                    && 0 < i < s1.len() - 1 && !is_ws(s1[i - 1]) && !is_ws(s1[i + 1]) by {
                    assert(s1[i] == s[i]);
                    assert(is_ws(s[i]));
                    if i == s1.len() - 1 {
                        assert(s1[i] == s1.last());
                    }
                }
            }
            lemma_single_spaced_words(s1);
            lemma_split_ws_nonempty(s1.drop_last());
            let p = split_ws(s1);
            let prev = split_ws(s1.drop_last());
            assert(s1.drop_last().push(s1.last()) =~= s1);
            assert(p == prev.update(prev.len() - 1, prev.last().push(s1.last())));
            assert(p.last().len() > 0);
            lemma_split_ws_nonempty(s1);
            assert(s.drop_last() =~= s1);
            let q = p.drop_last();
            assert(p =~= q.push(p.last()));
            let y = p.last().push(c);
            assert(split_ws(s) == p.update(p.len() - 1, y));
            assert(p.update(p.len() - 1, y) =~= q.push(y));
            lemma_words_push(q, p.last());
            lemma_words_push(q, y);
            let fq = q.filter(|w: Seq<char>| w.len() > 0);
            assert(words(s1) == fq.push(p.last()));
            assert(words(s) == fq.push(y));
            if fq.len() == 0 {
                assert(fq.push(p.last()) =~= seq![p.last()]);
                assert(fq.push(y) =~= seq![y]);
                assert(join_with(seq![p.last()], ' ') == p.last());
                assert(join_with(seq![y], ' ') == y);
                assert(s =~= s1.push(c));
            } else {
                assert(fq.push(p.last()).drop_last() =~= fq);
                assert(fq.push(y).drop_last() =~= fq);
                assert(join_with(fq.push(y), ' ') =~= join_with(fq.push(p.last()), ' ').push(c));
                assert(s =~= s1.push(c));
            }
        } else {
            let s2 = s1.drop_last();
            assert(is_ws(s[n - 2]));
            assert(s[n - 2] == ' ');
            assert(!is_ws(s[n - 3]));
            assert(single_spaced(s2)) by {
                assert forall|i: int| 0 <= i < s2.len() && #[trigger] is_ws(s2[i]) implies s2[i] == ' '
                    && 0 < i < s2.len() - 1 && !is_ws(s2[i - 1]) && !is_ws(s2[i + 1]) by {
                    assert(s2[i] == s[i]);
                    assert(is_ws(s[i]));
                    if i == s2.len() - 1 {
                        assert(s2[i] == s[n - 3]);
                    }
                }
            }
            lemma_single_spaced_words(s2);
            assert(s =~= s2 + seq![' '] + seq![c]);
            lemma_words_concat(s2, ' ', seq![c]);
            assert(no_ws(seq![c]));
            lemma_words_word(seq![c]);
            let ws = words(s2);
            assert(words(s) == ws + seq![seq![c]]);
            assert(ws + seq![seq![c]] =~= ws.push(seq![c]));
            assert(ws.push(seq![c]).drop_last() =~= ws);
            assert(join_with(ws.push(seq![c]), ' ') == join_with(ws, ' ') + seq![' '] + seq![c]);
        }
    }
}

/// The whitespace-separated words of `v`.
pub fn words_of(v: &[char]) -> (r: Vec<Vec<char>>)
    ensures
        char_views(r@) == words(v@),
{
    let mut done: Vec<Vec<char>> = Vec::new();
    let mut cur: Vec<char> = Vec::new();
    let ghost mut pieces: Seq<Seq<char>> = Seq::empty();
    let mut i: usize = 0;
    assert(v@.take(0) =~= Seq::<char>::empty());
    assert(split_ws(Seq::<char>::empty()) == seq![Seq::<char>::empty()]);
    assert(pieces.filter(|w: Seq<char>| w.len() > 0) =~= Seq::<Seq<char>>::empty()) by {
        reveal_with_fuel(Seq::filter, 1);
    }
    while i < v.len()
        invariant
            i <= v@.len(),
            split_ws(v@.take(i as int)) == pieces.push(cur@),
            char_views(done@) == pieces.filter(|w: Seq<char>| w.len() > 0),
        decreases v@.len() - i,
    {
        assert(v@.take(i + 1).drop_last() == v@.take(i as int));
        if is_whitespace(v[i]) {
            let ghost cur_view = cur@;
            proof {
                lemma_words_push(pieces, cur_view);
            }
            if cur.len() > 0 {
                let ghost old_done = char_views(done@);
                let piece = cur;
                done.push(piece);
                assert(char_views(done@) =~= old_done.push(cur_view));
            }
            cur = Vec::new();
            proof {
                pieces = pieces.push(cur_view);
            }
        } else {
            assert(pieces.push(cur@).update(pieces.len() as int, cur@.push(v@[i as int])) =~= pieces.push(
                cur@.push(v@[i as int]),
            ));
            cur.push(v[i]);
        }
        i = i + 1;
    }
    proof {
        lemma_words_push(pieces, cur@);
    }
    assert(v@.take(v@.len() as int) == v@);
    if cur.len() > 0 {
        let ghost old_done = char_views(done@);
        let ghost cur_view = cur@;
        let piece = cur;
        done.push(piece);
        assert(char_views(done@) =~= old_done.push(cur_view));
    }
    done
}

/// Pieces written back with `sep` between them.
pub open spec fn join_with(c: Seq<Seq<char>>, sep: char) -> Seq<char>
    decreases c.len(),
{
    if c.len() == 0 {
        Seq::empty()
    } else if c.len() == 1 {
        c[0]
    } else {
        join_with(c.drop_last(), sep) + seq![sep] + c.last()
    }
}

/// The pieces `c[from..]` written back with `sep` between them.
pub fn join_from(c: &Vec<Vec<char>>, from: usize, sep: char) -> (r: Vec<char>)
    requires
        from <= c@.len(),
    ensures
        r@ == join_with(char_views(c@).skip(from as int), sep),
{
    let mut r: Vec<char> = Vec::new();
    let mut i: usize = from;
    assert(char_views(c@).subrange(from as int, from as int) =~= Seq::<Seq<char>>::empty());
    while i < c.len()
        invariant
            from <= i <= c@.len(),
            r@ == join_with(char_views(c@).subrange(from as int, i as int), sep),
        decreases c@.len() - i,
    {
        if i > from {
            r.push(sep);
        }
        let piece = c[i].as_slice();
        let mut k: usize = 0;
        let ghost mid = r@;
        while k < piece.len()
            invariant
                k <= piece@.len(),
                r@ == mid + piece@.take(k as int),
            decreases piece@.len() - k,
        {
            r.push(piece[k]);
            assert(piece@.take(k + 1) == piece@.take(k as int).push(piece@[k as int]));
            k = k + 1;
        }
        assert(piece@.take(piece@.len() as int) == piece@);
        proof {
            let t = char_views(c@).subrange(from as int, i + 1);
            assert(t.drop_last() =~= char_views(c@).subrange(from as int, i as int));
            assert(t.last() == c@[i as int]@);
            if i == from {
                assert(t =~= seq![c@[i as int]@]);
            }
        }
        i = i + 1;
    }
    assert(char_views(c@).subrange(from as int, c@.len() as int) =~= char_views(c@).skip(
        from as int,
    ));
    r
}

/// Lexicographic order on character sequences by code point (the order of
/// `str` and `String` comparison).
pub open spec fn seq_lt(a: Seq<char>, b: Seq<char>) -> bool
    decreases a.len(),
{
    if a.len() == 0 {
        b.len() > 0
    } else if b.len() == 0 {
        false
    } else if a[0] != b[0] {
        (a[0] as int) < (b[0] as int)
    } else {
        seq_lt(a.drop_first(), b.drop_first())
    }
}

/// `seq_lt` is irreflexive.
pub proof fn lemma_seq_lt_irreflexive(a: Seq<char>)
    ensures
        !seq_lt(a, a),
    decreases a.len(),
{
    if a.len() > 0 {
        lemma_seq_lt_irreflexive(a.drop_first());
    }
}

/// `seq_lt` is transitive.
pub proof fn lemma_seq_lt_transitive(a: Seq<char>, b: Seq<char>, c: Seq<char>)
    requires
        seq_lt(a, b),
        seq_lt(b, c),
    ensures
        seq_lt(a, c),
    decreases a.len(),
{
    if a.len() > 0 && b.len() > 0 && c.len() > 0 {
        if a[0] == b[0] && b[0] == c[0] {
            lemma_seq_lt_transitive(a.drop_first(), b.drop_first(), c.drop_first());
        }
    }
}

/// Any two distinct sequences are ordered one way or the other.
pub proof fn lemma_seq_lt_total(a: Seq<char>, b: Seq<char>)
    ensures
        a == b || seq_lt(a, b) || seq_lt(b, a),
    decreases a.len(),
{
    if a.len() > 0 && b.len() > 0 {
        if a[0] == b[0] {
            lemma_seq_lt_total(a.drop_first(), b.drop_first());
            if a.drop_first() == b.drop_first() {
                assert(a =~= seq![a[0]] + a.drop_first());
                assert(b =~= seq![b[0]] + b.drop_first());
            }
        }
    } else if a.len() == 0 && b.len() == 0 {
        assert(a =~= b);
    }
}

/// `seq_lt` is asymmetric.
pub proof fn lemma_seq_lt_asymmetric(a: Seq<char>, b: Seq<char>)
    requires
        seq_lt(a, b),
    ensures
        !seq_lt(b, a),
{
    if seq_lt(b, a) {
        lemma_seq_lt_transitive(a, b, a);
        lemma_seq_lt_irreflexive(a);
    }
}

/// Whether `a` comes strictly before `b` in code point order.
pub fn chars_less(a: &[char], b: &[char]) -> (r: bool)
    ensures
        r == seq_lt(a@, b@),
{
    let mut i: usize = 0;
    assert(a@.skip(0) == a@ && b@.skip(0) == b@);
    while i < a.len() && i < b.len() && a[i] == b[i]
        invariant
            i <= a@.len(),
            i <= b@.len(),
            seq_lt(a@, b@) == seq_lt(a@.skip(i as int), b@.skip(i as int)),
        decreases a@.len() - i,
    {
        assert(a@.skip(i as int).drop_first() == a@.skip(i + 1));
        assert(b@.skip(i as int).drop_first() == b@.skip(i + 1));
        i = i + 1;
    }
    if i == a.len() {
        i < b.len()
    } else if i == b.len() {
        false
    } else {
        let x = a[i];
        let y = b[i];
        assert(a@.skip(i as int)[0] == x);
        assert(b@.skip(i as int)[0] == y);
        assert(x != y);
        assert(seq_lt(a@.skip(i as int), b@.skip(i as int)) == ((x as int) < (y as int)));
        x < y
    }
}

/// The decimal digits of `n`, most significant first, without leading zeros
/// (`"0"` for zero).
pub open spec fn decimal(n: nat) -> Seq<char>
    decreases n,
{
    if n < 10 {
        seq![digit_char(n)]
    } else {
        decimal(n / 10).push(digit_char(n % 10))
    }
}

/// The ASCII digit for `d < 10`.
pub open spec fn digit_char(d: nat) -> char {
    if d == 0 {
        '0'
    } else if d == 1 {
        '1'
    } else if d == 2 {
        '2'
    } else if d == 3 {
        '3'
    } else if d == 4 {
        '4'
    } else if d == 5 {
        '5'
    } else if d == 6 {
        '6'
    } else if d == 7 {
        '7'
    } else if d == 8 {
        '8'
    } else {
        '9'
    }
}

/// The ASCII digit for `d`.
pub fn digit(d: u128) -> (c: char)
    requires
        d < 10,
    ensures
        c == digit_char(d as nat),
{
    if d == 0 {
        '0'
    } else if d == 1 {
        '1'
    } else if d == 2 {
        '2'
    } else if d == 3 {
        '3'
    } else if d == 4 {
        '4'
    } else if d == 5 {
        '5'
    } else if d == 6 {
        '6'
    } else if d == 7 {
        '7'
    } else if d == 8 {
        '8'
    } else {
        '9'
    }
}

/// Appends the decimal rendering of `n` to `s` (what `format!("{}", n)` writes).
pub fn push_decimal(s: &mut String, n: u128)
    ensures
        final(s)@ == old(s)@ + decimal(n as nat),
    decreases n,
{
    if n < 10 {
        push_char(s, digit(n));
    } else {
        push_decimal(s, n / 10);
        push_char(s, digit(n % 10));
    }
}

/// The decimal rendering of `n`.
pub fn decimal_string(n: u128) -> (s: String)
    ensures
        s@ == decimal(n as nat),
{
    let mut s = String::new();
    push_decimal(&mut s, n);
    s
}

} // verus!
