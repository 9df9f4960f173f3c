//! Paths read component by component the way `std::path::Components` reads
//! a Unix path: a leading root or `.` is a component of its own, empty and
//! `.` pieces after it are passed over, and what is left of a path after
//! some components keeps its own text, trimmed only at its ends. On this
//! rest `Path::strip_prefix` is modelled.
use vstd::prelude::*;

use crate::paths::keep_component;
use crate::text::char_views;

verus! {

/// The position of the first `/` in `t`, or its length.
pub open spec fn seg_end(t: Seq<char>) -> nat
    decreases t.len(),
{
    if t.len() == 0 || t[0] == '/' {
        0
    } else {
        1 + seg_end(t.drop_first())
    }
}

/// The piece of `t` before its first `/`, and the text after that `/`
/// (empty when there is none).
pub open spec fn split_first(t: Seq<char>) -> (Seq<char>, Seq<char>) {
    let k = seg_end(t);
    (t.take(k as int), if k < t.len() { t.skip(k as int + 1) } else { Seq::empty() })
}

/// The first `/` of `t` lies within it, after the characters before it.
pub proof fn lemma_seg_end(t: Seq<char>)
    ensures
        seg_end(t) <= t.len(),
        forall|i: int| 0 <= i < seg_end(t) ==> t[i] != '/',
        seg_end(t) < t.len() ==> t[seg_end(t) as int] == '/',
    decreases t.len(),
{
    if t.len() > 0 && t[0] != '/' {
        lemma_seg_end(t.drop_first());
        assert forall|i: int| 0 <= i < seg_end(t) implies t[i] != '/' by {
            if i > 0 {
                assert(t[i] == t.drop_first()[i - 1]);
            }
        }
    }
}

/// The text after the first piece of a non-empty `t` is shorter than `t`.
pub proof fn lemma_split_first_shorter(t: Seq<char>)
    requires
        t.len() > 0,
    ensures
        split_first(t).1.len() < t.len(),
        split_first(t).0.len() == seg_end(t),
{
    lemma_seg_end(t);
}

/// The components of the body of a path (after its root or leading `.`):
/// its pieces between slashes that are neither empty nor `.`.
pub open spec fn body_comps(t: Seq<char>) -> Seq<Seq<char>>
    decreases t.len(),
{
    if t.len() == 0 {
        Seq::empty()
    } else {
        let (seg, rest) = split_first(t);
        proof {
            lemma_split_first_shorter(t);
        }
        if keep_component(seg) {
            seq![seg] + body_comps(rest)
        } else {
            body_comps(rest)
        }
    }
}

/// The component that a path starts with: its root, or a leading `.`
/// alone or followed by `/`.
pub open spec fn start_comp(s: Seq<char>) -> Option<Seq<char>> {
    if s.len() > 0 && s[0] == '/' {
        Some(seq!['/'])
    } else if s.len() > 0 && s[0] == '.' && (s.len() == 1 || s[1] == '/') {
        Some(seq!['.'])
    } else {
        None
    }
}

/// The components of a path as `Path::components` yields them, as texts.
pub open spec fn path_comps(s: Seq<char>) -> Seq<Seq<char>> {
    match start_comp(s) {
        Some(c) => seq![c] + body_comps(s.skip(1)),
        None => body_comps(s),
    }
}

/// The text of the body `t` left after taking `j` more components.
pub open spec fn body_skip(t: Seq<char>, j: nat) -> Seq<char>
    decreases t.len(),
{
    if j == 0 || t.len() == 0 {
        t
    } else {
        let (seg, rest) = split_first(t);
        proof {
            lemma_split_first_shorter(t);
        }
        if keep_component(seg) {
            body_skip(rest, (j - 1) as nat)
        } else {
            body_skip(rest, j)
        }
    }
}

/// The text of `s` left after taking its first `k` components, `k >= 1`.
pub open spec fn after_comps(s: Seq<char>, k: nat) -> Seq<char> {
    match start_comp(s) {
        Some(_) => body_skip(s.skip(1), (k - 1) as nat),
        None => body_skip(s, k),
    }
}

/// `t` without the empty and `.` pieces at its front.
pub open spec fn trim_front(t: Seq<char>) -> Seq<char>
    decreases t.len(),
{
    if t.len() == 0 {
        t
    } else {
        let (seg, rest) = split_first(t);
        proof {
            lemma_split_first_shorter(t);
        }
        if keep_component(seg) {
            t
        } else {
            trim_front(rest)
        }
    }
}

/// The start of the last piece of `t[..p]`, looking no further back than
/// `lo`.
pub open spec fn back_start(t: Seq<char>, lo: nat, p: nat) -> nat
    decreases p,
{
    if p <= lo || p > t.len() || t[p - 1] == '/' {
        p
    } else {
        back_start(t, lo, (p - 1) as nat)
    }
}

/// The last piece starts between `lo` and `p`.
pub proof fn lemma_back_start(t: Seq<char>, lo: nat, p: nat)
    requires
        lo <= p <= t.len(),
    ensures
        lo <= back_start(t, lo, p) <= p,
    decreases p,
{
    if !(p <= lo || t[p - 1] == '/') {
        lemma_back_start(t, lo, (p - 1) as nat);
    }
}

/// `t` without the empty and `.` pieces at its back, the first `lo`
/// characters left alone.
pub open spec fn trim_back(t: Seq<char>, lo: nat) -> Seq<char>
    decreases t.len(),
{
    if t.len() <= lo {
        t
    } else {
        let st = back_start(t, lo, t.len());
        proof {
            lemma_back_start(t, lo, t.len());
        }
        if keep_component(t.subrange(st as int, t.len() as int)) {
            t
        } else {
            trim_back(t.take(if st > lo { st - 1 } else { st as int }), lo)
        }
    }
}

/// What `Path::strip_prefix` leaves of `path` when the components of
/// `base` lead those of `path`: the text after them, trimmed at its ends.
/// When `base` has no components, the whole path, trimmed at its back only.
pub open spec fn strip_rest(path: Seq<char>, base: Seq<char>) -> Option<Seq<char>> {
    let pc = path_comps(path);
    let bc = path_comps(base);
    if bc.len() <= pc.len() && pc.take(bc.len() as int) == bc {
        if bc.len() == 0 {
            Some(trim_back(path, if start_comp(path) is Some { 1 } else { 0 }))
        } else {
            Some(trim_back(trim_front(after_comps(path, bc.len())), 0))
        }
    } else {
        None
    }
}

/// The characters `v[lo..hi]`.
fn slice_of(v: &[char], lo: usize, hi: usize) -> (r: Vec<char>)
    requires
        lo <= hi <= v@.len(),
    ensures
        r@ == v@.subrange(lo as int, hi as int),
{
    let mut r: Vec<char> = Vec::new();
    let mut i = lo;
    while i < hi
        invariant
            lo <= i <= hi <= v@.len(),
            r@ == v@.subrange(lo as int, i as int),
        decreases hi - i,
    {
        r.push(v[i]);
        assert(v@.subrange(lo as int, i + 1) == v@.subrange(lo as int, i as int).push(v@[i as int]));
        i = i + 1;
    }
    r
}

/// Whether `c` is a component (not empty, not `.`).
fn is_component(c: &[char]) -> (r: bool)
    ensures
        r == keep_component(c@),
{
    let dot = c.len() == 1 && c[0] == '.';
    proof {
        if c@.len() == 1 {
            assert(c@ == seq!['.'] <==> c@[0] == '.') by {
                if c@[0] == '.' {
                    assert(c@ =~= seq!['.']);
                }
            }
        }
    }
    c.len() > 0 && !dot
}

/// The piece of `t` before its first `/`, and the text after that `/`.
fn split_first_of(t: &[char]) -> (r: (Vec<char>, Vec<char>))
    ensures
        (r.0@, r.1@) == split_first(t@),
{
    let mut i: usize = 0;
    assert(t@.skip(0) =~= t@);
    while i < t.len() && t[i] != '/'
        invariant
            i <= t@.len(),
            seg_end(t@) == i + seg_end(t@.skip(i as int)),
        decreases t@.len() - i,
    {
        assert(t@.skip(i as int).drop_first() =~= t@.skip(i + 1));
        assert(t@.skip(i as int)[0] == t@[i as int]);
        i = i + 1;
    }
    proof {
        if i < t.len() {
            assert(t@.skip(i as int)[0] == t@[i as int]);
        }
        assert(seg_end(t@.skip(i as int)) == 0);
    }
    let seg = slice_of(t, 0, i);
    let rest = if i < t.len() {
        slice_of(t, i + 1, t.len())
    } else {
        Vec::new()
    };
    assert(t@.subrange(0, i as int) =~= t@.take(i as int));
    assert(i < t.len() ==> t@.subrange(i + 1, t@.len() as int) =~= t@.skip(i + 1));
    assert(i >= t.len() ==> rest@ =~= Seq::<char>::empty());
    (seg, rest)
}

/// The components of the body `t`.
fn body_comps_of(t: &[char]) -> (r: Vec<Vec<char>>)
    ensures
        char_views(r@) == body_comps(t@),
{
    let mut out: Vec<Vec<char>> = Vec::new();
    let mut cur: Vec<char> = slice_of(t, 0, t.len());
    assert(t@.subrange(0, t@.len() as int) =~= t@);
    assert(char_views(out@) =~= Seq::<Seq<char>>::empty());
    while cur.len() > 0
        invariant
            char_views(out@) + body_comps(cur@) == body_comps(t@),
        decreases cur@.len(),
    {
        let (seg, rest) = split_first_of(cur.as_slice());
        proof {
            lemma_split_first_shorter(cur@);
        }
        if is_component(seg.as_slice()) {
            let ghost before = char_views(out@);
            let ghost sv = seg@;
            out.push(seg);
            assert(char_views(out@) =~= before.push(sv));
            assert(before.push(sv) + body_comps(rest@) =~= before + (seq![sv] + body_comps(rest@)));
        }
        cur = rest;
    }
    assert(body_comps(cur@) == Seq::<Seq<char>>::empty());
    assert(char_views(out@) + Seq::<Seq<char>>::empty() =~= char_views(out@));
    out
}

/// The component that `s` starts with, if any.
pub(crate) fn start_comp_of(s: &[char]) -> (r: Option<Vec<char>>)
    ensures
        r is None <==> start_comp(s@) is None,
        r matches Some(c) ==> start_comp(s@) == Some(c@),
{
    if s.len() > 0 && s[0] == '/' {
        let v = vec!['/'];
        assert(v@ =~= seq!['/']);
        Some(v)
    } else if s.len() > 0 && s[0] == '.' && (s.len() == 1 || s[1] == '/') {
        let v = vec!['.'];
        assert(v@ =~= seq!['.']);
        Some(v)
    } else {
        None
    }
}

/// The components of `s` as `Path::components` yields them.
pub fn path_comps_of(s: &[char]) -> (r: Vec<Vec<char>>)
    ensures
        char_views(r@) == path_comps(s@),
{
    match start_comp_of(s) {
        Some(c) => {
            let rest = slice_of(s, 1, s.len());
            assert(s@.subrange(1, s@.len() as int) =~= s@.skip(1));
            let body = body_comps_of(rest.as_slice());
            let mut out: Vec<Vec<char>> = Vec::new();
            let ghost cv = c@;
            out.push(c);
            let mut i: usize = 0;
            while i < body.len()
                invariant
                    i <= body@.len(),
                    char_views(out@) == seq![cv] + char_views(body@).take(i as int),
                decreases body@.len() - i,
            {
                let piece = slice_of(body[i].as_slice(), 0, body[i].len());
                assert(body@[i as int]@.subrange(0, body@[i as int]@.len() as int) =~= body@[
                    i as int
                ]@);
                let ghost before = char_views(out@);
                out.push(piece);
                assert(char_views(out@) =~= before.push(body@[i as int]@));
                assert(char_views(body@).take(i + 1) =~= char_views(body@).take(i as int).push(
                    body@[i as int]@,
                ));
                i = i + 1;
            }
            assert(char_views(body@).take(body@.len() as int) =~= char_views(body@));
            out
        },
        None => body_comps_of(s),
    }
}

/// The body `t` after taking `j` more components.
fn body_skip_of(t: &[char], j: usize) -> (r: Vec<char>)
    ensures
        r@ == body_skip(t@, j as nat),
{
    let mut cur: Vec<char> = slice_of(t, 0, t.len());
    let mut k = j;
    assert(t@.subrange(0, t@.len() as int) =~= t@);
    while k > 0 && cur.len() > 0
        invariant
            body_skip(cur@, k as nat) == body_skip(t@, j as nat),
        decreases cur@.len(),
    {
        let (seg, rest) = split_first_of(cur.as_slice());
        proof {
            lemma_split_first_shorter(cur@);
        }
        if is_component(seg.as_slice()) {
            k = k - 1;
        }
        cur = rest;
    }
    cur
}

/// `t` without the empty and `.` pieces at its front.
fn trim_front_of(t: &[char]) -> (r: Vec<char>)
    ensures
        r@ == trim_front(t@),
{
    let mut cur: Vec<char> = slice_of(t, 0, t.len());
    assert(t@.subrange(0, t@.len() as int) =~= t@);
    loop
        invariant
            trim_front(cur@) == trim_front(t@),
        decreases cur@.len(),
    {
        if cur.len() == 0 {
            return cur;
        }
        let (seg, rest) = split_first_of(cur.as_slice());
        proof {
            lemma_split_first_shorter(cur@);
        }
        if is_component(seg.as_slice()) {
            return cur;
        }
        cur = rest;
    }
}

/// `t` without the empty and `.` pieces at its back, the first `lo`
/// characters left alone.
pub(crate) fn trim_back_of(t: &[char], lo: usize) -> (r: Vec<char>)
    ensures
        r@ == trim_back(t@, lo as nat),
{
    let mut cur: Vec<char> = slice_of(t, 0, t.len());
    assert(t@.subrange(0, t@.len() as int) =~= t@);
    loop
        invariant
            trim_back(cur@, lo as nat) == trim_back(t@, lo as nat),
        decreases cur@.len(),
    {
        if cur.len() <= lo {
            return cur;
        }
        let n = cur.len();
        let mut p = n;
        while p > lo && cur[p - 1] != '/'
            invariant
                lo <= p <= n == cur@.len(),
                back_start(cur@, lo as nat, p as nat) == back_start(cur@, lo as nat, n as nat),
            decreases p,
        {
            p = p - 1;
        }
        proof {
            lemma_back_start(cur@, lo as nat, n as nat);
        }
        let seg = slice_of(cur.as_slice(), p, n);
        if is_component(seg.as_slice()) {
            return cur;
        }
        let cut = if p > lo {
            p - 1
        } else {
            p
        };
        let next = slice_of(cur.as_slice(), 0, cut);
        assert(cur@.subrange(0, cut as int) =~= cur@.take(cut as int));
        cur = next;
    }
}

/// What `Path::strip_prefix` leaves of `path` after `base`, as text, or
/// `None` when the components of `base` do not lead those of `path`.
pub fn strip_rest_of(path: &[char], base: &[char]) -> (r: Option<Vec<char>>)
    ensures
        r is None <==> strip_rest(path@, base@) is None,
        r matches Some(t) ==> strip_rest(path@, base@) == Some(t@),
{
    let pc = path_comps_of(path);
    let bc = path_comps_of(base);
    let ghost pv = char_views(pc@);
    let ghost bv = char_views(bc@);
    assert(pv.len() == pc@.len() && bv.len() == bc@.len());
    if bc.len() > pc.len() {
        return None;
    }
    let mut i: usize = 0;
    while i < bc.len()
        invariant
            bc@.len() <= pc@.len(),
            i <= bc@.len(),
            pv == char_views(pc@),
            bv == char_views(bc@),
            pv == path_comps(path@),
            bv == path_comps(base@),
            forall|k: int| 0 <= k < i ==> pv[k] == bv[k],
        decreases bc@.len() - i,
    {
        if !crate::text::chars_equal(pc[i].as_slice(), bc[i].as_slice()) {
            assert(pv.take(bv.len() as int)[i as int] != bv[i as int]);
            return None;
        }
        i = i + 1;
    }
    assert(pv.take(bv.len() as int) =~= bv);
    if bc.len() == 0 {
        let lo: usize = if start_comp_of(path).is_some() {
            1
        } else {
            0
        };
        Some(trim_back_of(path, lo))
    } else {
        let after = match start_comp_of(path) {
            Some(_) => {
                let rest = slice_of(path, 1, path.len());
                assert(path@.subrange(1, path@.len() as int) =~= path@.skip(1));
                body_skip_of(rest.as_slice(), bc.len() - 1)
            },
            None => body_skip_of(path, bc.len()),
        };
        let front = trim_front_of(after.as_slice());
        Some(trim_back_of(front.as_slice(), 0))
    }
}

} // verus!
