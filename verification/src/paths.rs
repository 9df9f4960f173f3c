//! Slash-separated paths taken as text: parent, last name and joining, as
//! `std::path` gives them on Unix. The components are read as
//! `crate::pathiter` reads them: a leading root or `.` is a component of its
//! own, and empty and `.` pieces after it are passed over.
use vstd::prelude::*;

use crate::pathiter::{start_comp, trim_back, back_start, lemma_back_start, start_comp_of, trim_back_of};
use crate::text::{chars_equal, join_with};

verus! {

/// The root path `/`.
pub open spec fn root() -> Seq<char> {
    seq!['/']
}

/// Whether `s` is an absolute path (starts with `/`).
pub open spec fn is_absolute(s: Seq<char>) -> bool {
    s.len() > 0 && s[0] == '/'
}

/// How many characters at the front of `s` belong to its leading root or
/// `.`, which the pieces after them cannot consume.
pub open spec fn body_start(s: Seq<char>) -> nat {
    if start_comp(s) is Some {
        1
    } else {
        0
    }
}

/// The start of the last component of `t`, a path already trimmed at its
/// back, whose body starts at `lo`.
pub open spec fn last_start(t: Seq<char>, lo: nat) -> nat {
    back_start(t, lo, t.len())
}

/// The parent of `s`, as `Path::parent` gives it: the text before its last
/// component (trailing empty and `.` pieces passed over), trimmed at its
/// back; `None` for the root and for a path without components; the empty
/// path for a single name or a lone `.`.
pub open spec fn path_parent(s: Seq<char>) -> Option<Seq<char>> {
    let lo = body_start(s);
    let t = trim_back(s, lo);
    if t.len() > lo {
        let st = last_start(t, lo);
        Some(trim_back(t.take(if st > lo { st - 1 } else { st as int }), lo))
    } else if start_comp(s) is Some && s[0] == '.' {
        Some(Seq::empty())
    } else {
        None
    }
}

/// The last name in `s`, as `Path::file_name` gives it: its last component
/// (trailing empty and `.` pieces passed over), or `None` when that is the
/// root, a leading `.` or `..`, or there is none.
pub open spec fn path_file_name(s: Seq<char>) -> Option<Seq<char>> {
    let lo = body_start(s);
    let t = trim_back(s, lo);
    if t.len() > lo {
        let c = t.subrange(last_start(t, lo) as int, t.len() as int);
        if c == seq!['.', '.'] {
            None
        } else {
            Some(c)
        }
    } else {
        None
    }
}

/// The parent directory shown when going up from `s`: the parent, or the
/// root where there is none or it is empty.
pub open spec fn parent_text(s: Seq<char>) -> Seq<char> {
    match path_parent(s) {
        Some(p) => if p.len() == 0 {
            root()
        } else {
            p
        },
        None => root(),
    }
}

/// `rel` resolved against `dir` as `Path::join` does: an absolute `rel`
/// replaces `dir`; otherwise a separator is put between them when `dir` is
/// not empty and does not already end with one.
pub open spec fn joined_path(dir: Seq<char>, rel: Seq<char>) -> Seq<char> {
    if is_absolute(rel) {
        rel
    } else if dir.len() == 0 || dir.last() == '/' {
        dir + rel
    } else {
        dir + seq!['/'] + rel
    }
}

/// Whether a piece between slashes names a component (it is not empty and
/// not `.`).
pub open spec fn keep_component(c: Seq<char>) -> bool {
    c.len() > 0 && c != seq!['.']
}

/// Components written back with single slashes between them.
pub open spec fn join_components(c: Seq<Seq<char>>) -> Seq<char> {
    join_with(c, '/')
}

/// The start of the last piece of `v`, looking no further back than `lo`.
fn back_start_of(v: &[char], lo: usize) -> (r: usize)
    requires
        lo <= v@.len(),
    ensures
        r == last_start(v@, lo as nat),
        lo <= r <= v@.len(),
{
    let n = v.len();
    let mut p = n;
    while p > lo && v[p - 1] != '/'
        invariant
            lo <= p <= n == v@.len(),
            back_start(v@, lo as nat, p as nat) == back_start(v@, lo as nat, n as nat),
        decreases p,
    {
        p = p - 1;
    }
    proof {
        lemma_back_start(v@, lo as nat, n as nat);
    }
    p
}

/// The length of the body start of `v`, and whether `v` starts with `.`
/// as a component.
fn body_start_of(v: &[char]) -> (r: (usize, bool))
    ensures
        r.0 == body_start(v@),
        r.1 == (start_comp(v@) is Some && v@[0] == '.'),
{
    match start_comp_of(v) {
        Some(_) => (1, v[0] == '.'),
        None => (0, false),
    }
}

/// The characters `v[lo..hi]` as a vector.
fn copy_range(v: &[char], lo: usize, hi: usize) -> (r: Vec<char>)
    requires
        lo <= hi <= v@.len(),
    ensures
        r@ == v@.subrange(lo as int, hi as int),
{
    let mut r: Vec<char> = Vec::new();
    let mut i = lo;
    while i < hi
        invariant
            lo <= i <= hi <= v@.len(),
            r@ == v@.subrange(lo as int, i as int),
        decreases hi - i,
    {
        r.push(v[i]);
        assert(v@.subrange(lo as int, i + 1) == v@.subrange(lo as int, i as int).push(v@[i as int]));
        i = i + 1;
    }
    r
}

/// The parent of `v` (`path_parent`).
pub fn parent_of(v: &[char]) -> (r: Option<Vec<char>>)
    ensures
        r is None <==> path_parent(v@) is None,
        r matches Some(p) ==> path_parent(v@) == Some(p@),
{
    let (lo, dot) = body_start_of(v);
    let t = trim_back_of(v, lo);
    let n = t.len();
    if n > lo {
        let st = back_start_of(t.as_slice(), lo);
        let cut = if st > lo {
            st - 1
        } else {
            st
        };
        let rest = copy_range(t.as_slice(), 0, cut);
        assert(t@.subrange(0, cut as int) =~= t@.take(cut as int));
        Some(trim_back_of(rest.as_slice(), lo))
    } else if dot {
        Some(Vec::new())
    } else {
        None
    }
}

/// The last name in `v` (`path_file_name`).
pub fn file_name_of(v: &[char]) -> (r: Option<Vec<char>>)
    ensures
        r is None <==> path_file_name(v@) is None,
        r matches Some(n) ==> path_file_name(v@) == Some(n@),
{
    let (lo, _) = body_start_of(v);
    let t = trim_back_of(v, lo);
    let n = t.len();
    if n > lo {
        let st = back_start_of(t.as_slice(), lo);
        let seg = copy_range(t.as_slice(), st, n);
        let dotdot = vec!['.', '.'];
        assert(dotdot@ == seq!['.', '.']);
        if chars_equal(seg.as_slice(), dotdot.as_slice()) {
            None
        } else {
            Some(seg)
        }
    } else {
        None
    }
}

/// `dir` and `rel` joined as `Path::join` joins them.
pub fn join_chars(dir: &[char], rel: &[char]) -> (r: Vec<char>)
    ensures
        r@ == joined_path(dir@, rel@),
{
    let mut r: Vec<char> = Vec::new();
    if rel.len() > 0 && rel[0] == '/' {
        let c = copy_range(rel, 0, rel.len());
        assert(rel@.subrange(0, rel@.len() as int) == rel@);
        return c;
    }
    let mut i: usize = 0;
    while i < dir.len()
        invariant
            i <= dir@.len(),
            r@ == dir@.take(i as int),
        decreases dir@.len() - i,
    {
        r.push(dir[i]);
        assert(dir@.take(i + 1) == dir@.take(i as int).push(dir@[i as int]));
        i = i + 1;
    }
    assert(dir@.take(dir@.len() as int) == dir@);
    if dir.len() > 0 && dir[dir.len() - 1] != '/' {
        r.push('/');
    }
    let ghost mid = r@;
    let mut k: usize = 0;
    while k < rel.len()
        invariant
            k <= rel@.len(),
            r@ == mid + rel@.take(k as int),
        decreases rel@.len() - k,
    {
        r.push(rel[k]);
        assert(rel@.take(k + 1) == rel@.take(k as int).push(rel@[k as int]));
        k = k + 1;
    }
    assert(rel@.take(rel@.len() as int) == rel@);
    r
}

/// Whether `s` holds no slash.
pub open spec fn slash_free(s: Seq<char>) -> bool {
    forall|i: int| 0 <= i < s.len() ==> s[i] != '/'
}

/// The last piece of `a` followed by `/` and a slash-free `y` starts after
/// that slash.
proof fn lemma_last_piece(a: Seq<char>, y: Seq<char>, lo: nat, k: nat)
    requires
        slash_free(y),
        lo <= a.len() + 1,
        k <= y.len(),
    ensures
        back_start(a.push('/') + y, lo, a.len() + 1 + k) == a.len() + 1,
    decreases k,
{
    let t = a.push('/') + y;
    if k == 0 {
        assert(t[a.len() as int] == '/');
    } else {
        assert(t[(a.len() + k) as int] == y[k - 1]);
        lemma_last_piece(a, y, lo, (k - 1) as nat);
    }
}

/// A path whose last piece, after `/`, is a component is left whole by
/// trimming its back, and that piece starts after the slash.
proof fn lemma_ends_in_component(a: Seq<char>, y: Seq<char>, lo: nat)
    requires
        slash_free(y),
        keep_component(y),
        lo <= a.len() + 1,
    ensures
        trim_back(a.push('/') + y, lo) == a.push('/') + y,
        last_start(a.push('/') + y, lo) == a.len() + 1,
{
    let t = a.push('/') + y;
    lemma_last_piece(a, y, lo, y.len());
    assert(t.subrange(a.len() + 1int, t.len() as int) =~= y);
}

/// Absolute paths written as `/` followed by slash-free names separated by
/// single slashes.
pub open spec fn absolute_from(c: Seq<Seq<char>>) -> Seq<char> {
    seq!['/'] + join_components(c)
}

/// An absolute path built from components ends in its last one, after a
/// slash.
proof fn lemma_absolute_last(c: Seq<Seq<char>>)
    requires
        c.len() > 0,
        forall|i: int| 0 <= i < c.len() ==> keep_component(#[trigger] c[i]) && slash_free(c[i]),
    ensures
        trim_back(absolute_from(c), 1) == absolute_from(c),
        absolute_from(c) == (if c.len() == 1 {
            Seq::<char>::empty()
        } else {
            absolute_from(c.drop_last())
        }).push('/') + c.last(),
        last_start(absolute_from(c), 1) == (if c.len() == 1 {
            0
        } else {
            absolute_from(c.drop_last()).len()
        }) + 1,
{
    let p = absolute_from(c);
    assert(keep_component(c[c.len() - 1]) && slash_free(c[c.len() - 1]));
    if c.len() == 1 {
        assert(p =~= Seq::<char>::empty().push('/') + c[0]);
        lemma_ends_in_component(Seq::<char>::empty(), c.last(), 1);
    } else {
        let x = absolute_from(c.drop_last());
        assert(join_components(c) =~= join_components(c.drop_last()).push('/') + c.last()) by {
            assert(c =~= c.drop_last().push(c.last()));
        }
        assert(p =~= x.push('/') + c.last());
        lemma_ends_in_component(x, c.last(), 1);
    }
}

/// The parent of an absolute path drops exactly its last component; the
/// parent of the root, and of a path with a single component, is the root.
pub proof fn law_parent_drops_last_component(c: Seq<Seq<char>>)
    requires
        forall|i: int| 0 <= i < c.len() ==> keep_component(#[trigger] c[i]) && slash_free(c[i]),
    ensures
        parent_text(absolute_from(c)) == (if c.len() <= 1 {
            root()
        } else {
            absolute_from(c.drop_last())
        }),
{
    let p = absolute_from(c);
    if c.len() == 0 {
        assert(p =~= seq!['/']);
        assert(start_comp(p) == Some(seq!['/']));
    } else {
        lemma_absolute_last(c);
        assert(start_comp(p) is Some);
        if c.len() == 1 {
            assert(p.take(1) =~= root());
            assert(path_parent(p) == Some(root()));
        } else {
            let d = c.drop_last();
            let x = absolute_from(d);
            assert forall|i: int| 0 <= i < d.len() implies keep_component(#[trigger] d[i])
                && slash_free(d[i]) by {
                assert(d[i] == c[i]);
            }
            lemma_absolute_last(d);
            assert(p.take(x.len() as int) =~= x);
            assert(x.len() > 1);
            assert(path_parent(p) == Some(x));
        }
    }
}

/// The root is its own parent.
pub proof fn law_parent_of_root()
    ensures
        parent_text(root()) == root(),
{
    assert(start_comp(root()) == Some(seq!['/']));
}

/// Resolving a relative path against a directory that is not empty and does
/// not end with a slash gives the directory, a slash, then the relative
/// path.
pub proof fn law_relative_resolution(dir: Seq<char>, rel: Seq<char>)
    requires
        !is_absolute(rel),
        dir.len() > 0,
        dir.last() != '/',
    ensures
        joined_path(dir, rel).take(dir.len() as int) == dir,
        joined_path(dir, rel).skip(dir.len() as int) == seq!['/'] + rel,
{
    let j = joined_path(dir, rel);
    assert(j.take(dir.len() as int) =~= dir);
    assert(j.skip(dir.len() as int) =~= seq!['/'] + rel);
}

} // verus!
