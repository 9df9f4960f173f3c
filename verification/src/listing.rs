//! Directory listing logic: the order in which entries are shown, hidden-entry
//! filtering, and parent / relative path computation.
use vstd::prelude::*;

use crate::paths::{parent_text, joined_path, parent_of, join_chars, path_parent, root};
use crate::text::{
    chars_of, lowercase_chars, seq_lt, spec_lowercase, chars_less, string_from_chars,
    is_ascii_text, ascii_lower, lemma_seq_lt_irreflexive, lemma_seq_lt_transitive, lemma_seq_lt_total,
};
use crate::types::{DirectoryEntry, EntryType};

verus! {

/// Whether `e` is a directory.
pub open spec fn is_dir(e: DirectoryEntry) -> bool {
    e.entry_type == EntryType::Directory
}

/// The name by which entries are ordered: the lowercase form of their name.
pub open spec fn order_name(e: DirectoryEntry) -> Seq<char> {
    spec_lowercase(e.name@)
}

/// For an entry with an ASCII name, the name by which it is ordered is
/// that name with `A`-`Z` mapped to `a`-`z`.
pub open spec fn ascii_lowered(e: DirectoryEntry) -> bool {
    is_ascii_text(e.name@) ==> order_name(e) == ascii_lower(e.name@)
}

/// Every entry of `s` with an ASCII name is ordered by its ASCII lowercase
/// form.
pub open spec fn all_ascii_lowered(s: Seq<DirectoryEntry>) -> bool {
    forall|k: int| 0 <= k < s.len() ==> ascii_lowered(#[trigger] s[k])
}

/// `a` sorts strictly before `b`: directories come first, then names in
/// case-insensitive (lowercased) order.
pub open spec fn sorts_before(a: DirectoryEntry, b: DirectoryEntry) -> bool {
    ||| is_dir(a) && !is_dir(b)
    ||| is_dir(a) == is_dir(b) && seq_lt(order_name(a), order_name(b))
}

/// `a` and `b` have the same rank in the order.
pub open spec fn sorts_equal(a: DirectoryEntry, b: DirectoryEntry) -> bool {
    is_dir(a) == is_dir(b) && order_name(a) == order_name(b)
}

/// Entry `a`, found at index `ia` of the input, is placed before entry `b`,
/// found at `ib`: it sorts before it, or ranks the same and came first.
pub open spec fn placed_before(a: DirectoryEntry, ia: int, b: DirectoryEntry, ib: int) -> bool {
    sorts_before(a, b) || (sorts_equal(a, b) && ia < ib)
}

/// `output` is `input` sorted stably, with `p[k]` the input index of
/// `output[k]`.
pub open spec fn is_stable_sort(
    input: Seq<DirectoryEntry>,
    output: Seq<DirectoryEntry>,
    p: Seq<int>,
) -> bool {
    &&& output.len() == input.len()
    &&& p.len() == input.len()
    &&& forall|k: int| 0 <= k < p.len() ==> 0 <= #[trigger] p[k] < input.len() && output[k] == input[p[k]]
    &&& forall|i: int, j: int|
        0 <= i < j < p.len() ==> placed_before(#[trigger] output[i], p[i], #[trigger] output[j], p[j])
}

/// The order on entries is irreflexive.
pub proof fn lemma_sorts_before_irreflexive(a: DirectoryEntry)
    ensures
        !sorts_before(a, a),
{
    lemma_seq_lt_irreflexive(order_name(a));
}

/// The order on entries is transitive.
pub proof fn lemma_sorts_before_transitive(a: DirectoryEntry, b: DirectoryEntry, c: DirectoryEntry)
    requires
        sorts_before(a, b),
        sorts_before(b, c),
    ensures
        sorts_before(a, c),
{
    if is_dir(a) == is_dir(b) && is_dir(b) == is_dir(c) {
        lemma_seq_lt_transitive(order_name(a), order_name(b), order_name(c));
    }
}

/// Any two entries are ordered one way, the other, or rank the same.
pub proof fn lemma_sorts_total(a: DirectoryEntry, b: DirectoryEntry)
    ensures
        sorts_before(a, b) || sorts_before(b, a) || sorts_equal(a, b),
{
    lemma_seq_lt_total(order_name(a), order_name(b));
}

/// Placing entries with their input indices is a transitive relation.
pub proof fn lemma_placed_before_transitive(
    a: DirectoryEntry,
    ia: int,
    b: DirectoryEntry,
    ib: int,
    c: DirectoryEntry,
    ic: int,
)
    requires
        placed_before(a, ia, b, ib),
        placed_before(b, ib, c, ic),
    ensures
        placed_before(a, ia, c, ic),
{
    if sorts_before(a, b) && sorts_before(b, c) {
        lemma_sorts_before_transitive(a, b, c);
    }
}

/// Whether `a`, whose lowercase name is `a_lower`, sorts strictly before `b`.
fn entry_sorts_before(a: &DirectoryEntry, a_lower: &[char], b: &DirectoryEntry) -> (r: bool)
    requires
        a_lower@ == order_name(*a),
    ensures
        r == sorts_before(*a, *b),
{
    let a_dir = a.entry_type == EntryType::Directory;
    let b_dir = b.entry_type == EntryType::Directory;
    if a_dir && !b_dir {
        true
    } else if a_dir != b_dir {
        false
    } else {
        let b_lower = lowercase_chars(b.name.as_str());
        chars_less(a_lower, b_lower.as_slice())
    }
}

/// Sort entries: directories first, then alphabetical case-insensitive within each group.
///
/// Ordering rules:
/// 1. Directories come before Files and Symlinks
/// 2. Within the same type group, entries are sorted by case-insensitive name comparison
///
/// The sort is stable: entries that rank the same keep their relative order.
pub fn sort_entries(entries: &mut Vec<DirectoryEntry>)
    ensures
        exists|p: Seq<int>| is_stable_sort(old(entries)@, final(entries)@, p),
        all_ascii_lowered(old(entries)@),
        all_ascii_lowered(final(entries)@),
{
    let ghost input = entries@;
    let n = entries.len();
    let ghost mut p: Seq<int> = Seq::new(n as nat, |k: int| k);
    let mut i: usize = 0;
    while i < n
        invariant
            n == input.len(),
            entries@.len() == n,
            i <= n,
            p.len() == n,
            forall|k: int| 0 <= k < i ==> 0 <= #[trigger] p[k] < i && entries@[k] == input[p[k]],
            forall|k: int| i <= k < n ==> #[trigger] p[k] == k && entries@[k] == input[k],
            forall|k: int| 0 <= k < i ==> ascii_lowered(#[trigger] input[k]),
            forall|a: int, b: int|
                0 <= a < b < i ==> placed_before(
                    #[trigger] entries@[a],
                    p[a],
                    #[trigger] entries@[b],
                    p[b],
                ),
        decreases n - i,
    {
        let ghost before = entries@;
        assert(p[i as int] == i as int && before[i as int] == input[i as int]);
        let x = entries.remove(i);
        let x_lower = lowercase_chars(x.name.as_str());
        assert(ascii_lowered(input[i as int]));
        let mut j: usize = i;
        while j > 0 && entry_sorts_before(&x, x_lower.as_slice(), &entries[j - 1])
            invariant
                entries@ == before.remove(i as int),
                before.len() == n,
                i < n,
                j <= i,
                x == before[i as int],
                x_lower@ == order_name(x),
                forall|m: int| j <= m < i ==> sorts_before(x, #[trigger] entries@[m]),
            decreases j,
        {
            j = j - 1;
        }
        let ghost removed = entries@;
        entries.insert(j, x);
        proof {
            let old_p = p;
            let new_p = old_p.take(j as int) + seq![i as int] + old_p.subrange(
                j as int,
                i as int,
            ) + old_p.skip(i + 1);
            assert(new_p.len() == n);
            assert forall|k: int| 0 <= k < n implies #[trigger] new_p[k] == (if k < j {
                old_p[k]
            } else if k == j {
                i as int
            } else if k <= i {
                old_p[k - 1]
            } else {
                old_p[k]
            }) by {}
            assert forall|k: int| 0 <= k < n implies #[trigger] entries@[k] == (if k < j {
                before[k]
            } else if k == j {
                x
            } else if k <= i {
                before[k - 1]
            } else {
                before[k]
            }) by {}
            assert forall|k: int| 0 <= k < i + 1 implies 0 <= #[trigger] new_p[k] < i + 1
                && entries@[k] == input[new_p[k]] by {
                if k < j {
                    assert(new_p[k] == old_p[k]);
                    assert(entries@[k] == before[k]);
                    assert(0 <= old_p[k] < i);
                } else if k == j {
                    assert(old_p[i as int] == i);
                } else {
                    assert(new_p[k] == old_p[k - 1]);
                    assert(entries@[k] == before[k - 1]);
                    assert(0 <= old_p[k - 1] < i);
                }
            }
            assert forall|k: int| i + 1 <= k < n implies #[trigger] new_p[k] == k && entries@[k]
                == input[k] by {
                assert(new_p[k] == old_p[k]);
                assert(old_p[k] == k);
                assert(entries@[k] == before[k]);
            }
            assert forall|a: int, b: int| 0 <= a < b < i + 1 implies placed_before(
                #[trigger] entries@[a],
                new_p[a],
                #[trigger] entries@[b],
                new_p[b],
            ) by {
                if b < j {
                    assert(placed_before(before[a], old_p[a], before[b], old_p[b]));
                } else if b == j {
                    // x against an element left of it
                    let y = before[j - 1];
                    assert(!sorts_before(x, y));
                    lemma_sorts_total(x, y);
                    assert(placed_before(y, old_p[j - 1], x, i as int));
                    if a < j - 1 {
                        assert(placed_before(before[a], old_p[a], y, old_p[j - 1]));
                        lemma_placed_before_transitive(
                            before[a],
                            old_p[a],
                            y,
                            old_p[j - 1],
                            x,
                            i as int,
                        );
                    }
                } else if a == j {
                    assert(removed[b - 1] == before[b - 1]);
                    assert(sorts_before(x, removed[b - 1]));
                } else if a < j {
                    assert(placed_before(before[a], old_p[a], before[b - 1], old_p[b - 1]));
                } else {
                    assert(placed_before(before[a - 1], old_p[a - 1], before[b - 1], old_p[b - 1]));
                }
            }
            p = new_p;
        }
        i = i + 1;
    }
    assert(is_stable_sort(input, entries@, p));
    assert forall|k: int| 0 <= k < n implies ascii_lowered(#[trigger] entries@[k]) by {
        assert(ascii_lowered(input[p[k]]));
    }
}

/// In a sorted listing, of two entries of the same kind whose names are
/// ASCII, the name of the earlier one, with `A`-`Z` mapped to `a`-`z`, is
/// not greater than that of the later one: case does not decide the order.
pub proof fn law_ascii_names_case_insensitive_order(
    input: Seq<DirectoryEntry>,
    output: Seq<DirectoryEntry>,
    p: Seq<int>,
    i: int,
    j: int,
)
    requires
        is_stable_sort(input, output, p),
        all_ascii_lowered(output),
        0 <= i < j < output.len(),
        is_dir(output[i]) == is_dir(output[j]),
        is_ascii_text(output[i].name@),
        is_ascii_text(output[j].name@),
    ensures
        !seq_lt(ascii_lower(output[j].name@), ascii_lower(output[i].name@)),
{
    let a = output[i];
    let b = output[j];
    assert(placed_before(a, p[i], b, p[j]));
    assert(ascii_lowered(a) && ascii_lowered(b));
    let x = ascii_lower(a.name@);
    let y = ascii_lower(b.name@);
    lemma_seq_lt_irreflexive(x);
    if seq_lt(y, x) && seq_lt(x, y) {
        lemma_seq_lt_transitive(x, y, x);
    }
}

/// Whether a name is hidden (starts with `.`).
pub open spec fn is_hidden_name(name: Seq<char>) -> bool {
    name.len() > 0 && name[0] == '.'
}

/// The entries that a listing shows: all of them, or those whose name is not
/// hidden.
pub open spec fn visible_entries(entries: Seq<DirectoryEntry>, show_hidden: bool) -> Seq<
    DirectoryEntry,
> {
    if show_hidden {
        entries
    } else {
        entries.filter(|e: DirectoryEntry| !is_hidden_name(e.name@))
    }
}

/// Whether `name` is hidden.
pub fn name_is_hidden(name: &str) -> (r: bool)
    ensures
        r == is_hidden_name(name@),
{
    let v = chars_of(name);
    v.len() > 0 && v[0] == '.'
}

/// The entries of a directory as the browser shows them: hidden entries
/// removed unless `show_hidden`, then sorted with `sort_entries`.
pub fn order_listing(entries: Vec<DirectoryEntry>, show_hidden: bool) -> (r: Vec<DirectoryEntry>)
    ensures
        exists|p: Seq<int>| is_stable_sort(visible_entries(entries@, show_hidden), r@, p),
        all_ascii_lowered(r@),
{
    let mut kept: Vec<DirectoryEntry> = Vec::new();
    let mut i: usize = 0;
    while i < entries.len()
        invariant
            i <= entries@.len(),
            kept@ == visible_entries(entries@.take(i as int), show_hidden),
        decreases entries@.len() - i,
    {
        let hidden = name_is_hidden(entries[i].name.as_str());
        proof {
            reveal_with_fuel(Seq::filter, 1);
            assert(entries@.take(i + 1).drop_last() == entries@.take(i as int));
        }
        if show_hidden || !hidden {
            kept.push(entries[i].duplicate());
        }
        i = i + 1;
    }
    assert(entries@.take(entries@.len() as int) == entries@);
    sort_entries(&mut kept);
    kept
}

/// Compute the parent path. If the path is root ("/"), return root itself.
pub fn parent_path(path: &str) -> (r: String)
    ensures
        r@ == parent_text(path@),
{
    let v = chars_of(path);
    match parent_of(v.as_slice()) {
        Some(p) => {
            if p.len() == 0 {
                string_from_chars(&['/'])
            } else {
                string_from_chars(p.as_slice())
            }
        },
        None => string_from_chars(&['/']),
    }
}

/// Resolve a relative path against a working directory.
///
/// E.g., `resolve_relative("logs/app.log", "/home/user")` → `/home/user/logs/app.log`
pub fn resolve_relative(relative: &str, working_dir: &str) -> (r: String)
    ensures
        r@ == joined_path(working_dir@, relative@),
{
    let d = chars_of(working_dir);
    let rel = chars_of(relative);
    let j = join_chars(d.as_slice(), rel.as_slice());
    string_from_chars(j.as_slice())
}

} // verus!
