//! Local and global find: matching names, filtering what a search shows, and
//! the text of a search result.
use vstd::prelude::*;

use crate::listing::{is_hidden_name, name_is_hidden};
use crate::pathiter::{path_comps, path_comps_of, strip_rest, strip_rest_of};
use crate::text::{
    ascii_lower, is_ascii_text, chars_of, char_views, contains_chars, contains_seq, lowercase_chars, push_chars, push_str,
    spec_lowercase, string_from_chars,
};
use crate::types::{format_size, size_text, DirectoryEntry, EntryType};

verus! {

/// Whether `name` contains `query`, ignoring case (both lowercased).
pub open spec fn name_matches(name: Seq<char>, query: Seq<char>) -> bool {
    contains_seq(spec_lowercase(name), spec_lowercase(query))
}

/// Case-insensitive substring matching helper.
///
/// Returns `true` if the lowercased `name` contains the lowercased `query` as a substring.
/// An empty query matches all names.
pub fn matches_query(name: &str, query: &str) -> (r: bool)
    ensures
        r == name_matches(name@, query@),
        is_ascii_text(name@) && is_ascii_text(query@) ==> r == contains_seq(
            ascii_lower(name@),
            ascii_lower(query@),
        ),
{
    let name_lower = lowercase_chars(name);
    let query_lower = lowercase_chars(query);
    contains_chars(name_lower.as_slice(), query_lower.as_slice())
}

/// The marker written after a search result's path for its type.
pub open spec fn type_marker(t: EntryType) -> Seq<char> {
    match t {
        EntryType::Directory => seq!['/'],
        EntryType::Symlink => seq!['@'],
        EntryType::File => Seq::empty(),
    }
}

/// The path of a result as shown: what `Path::strip_prefix` leaves of it
/// after `base` when the components of `base` lead it, otherwise the whole
/// path as written.
pub open spec fn shown_path(path: Seq<char>, base: Seq<char>) -> Seq<char> {
    match strip_rest(path, base) {
        Some(r) => r,
        None => path,
    }
}

/// The path of a result as shown.
fn shown_path_of(path: &[char], base: &[char]) -> (r: Vec<char>)
    ensures
        r@ == shown_path(path@, base@),
{
    match strip_rest_of(path, base) {
        Some(r) => r,
        None => {
            let mut r: Vec<char> = Vec::new();
            let mut i: usize = 0;
            while i < path.len()
                invariant
                    i <= path@.len(),
                    r@ == path@.take(i as int),
                decreases path@.len() - i,
            {
                r.push(path[i]);
                assert(path@.take(i + 1) == path@.take(i as int).push(path@[i as int]));
                i = i + 1;
            }
            assert(path@.take(path@.len() as int) =~= path@);
            r
        },
    }
}

/// The text of a search result: path, type marker, two spaces, size.
pub open spec fn search_result_text(e: DirectoryEntry, base: Seq<char>) -> Seq<char> {
    shown_path(e.path@, base) + type_marker(e.entry_type) + seq![' ', ' '] + size_text(e.size)
}

/// Format a search result with relative path, size, and type indicator.
///
/// The type indicator is:
/// - "/" for directories
/// - "@" for symlinks
/// - "" (empty) for regular files
///
/// Format: `<relative_path><type_indicator>  <size>`
pub fn format_search_result(entry: &DirectoryEntry, base: &str) -> (r: String)
    ensures
        r@ == search_result_text(*entry, base@),
{
    let p = chars_of(entry.path.as_str());
    let b = chars_of(base);
    let mut r = String::new();
    let shown = shown_path_of(p.as_slice(), b.as_slice());
    push_chars(&mut r, shown.as_slice());
    match entry.entry_type {
        EntryType::Directory => push_str(&mut r, "/"),
        EntryType::Symlink => push_str(&mut r, "@"),
        EntryType::File => {},
    }
    proof {
        reveal_strlit("/");
        reveal_strlit("@");
    }
    push_str(&mut r, "  ");
    proof {
        reveal_strlit("  ");
    }
    let size = format_size(entry.size);
    push_str(&mut r, size.as_str());
    r
}

/// Whether a local search shows `e` for `query`.
pub open spec fn local_hit(e: DirectoryEntry, query: Seq<char>, show_hidden: bool) -> bool {
    (show_hidden || !is_hidden_name(e.name@)) && name_matches(e.name@, query)
}

/// The entries of a directory that a local search shows, in listing order:
/// those whose name contains `query` ignoring case, hidden ones only when
/// `show_hidden`.
pub fn local_find_results(entries: Vec<DirectoryEntry>, query: &str, show_hidden: bool) -> (r: Vec<
    DirectoryEntry,
>)
    ensures
        r@ == entries@.filter(|e: DirectoryEntry| local_hit(e, query@, show_hidden)),
{
    let mut out: Vec<DirectoryEntry> = Vec::new();
    let mut i: usize = 0;
    while i < entries.len()
        invariant
            i <= entries@.len(),
            out@ == entries@.take(i as int).filter(
                |e: DirectoryEntry| local_hit(e, query@, show_hidden),
            ),
        decreases entries@.len() - i,
    {
        let e = &entries[i];
        let keep = (show_hidden || !name_is_hidden(e.name.as_str())) && matches_query(
            e.name.as_str(),
            query,
        );
        proof {
            reveal_with_fuel(Seq::filter, 1);
            assert(entries@.take(i + 1).drop_last() == entries@.take(i as int));
        }
        if keep {
            out.push(e.duplicate());
        }
        i = i + 1;
    }
    assert(entries@.take(entries@.len() as int) == entries@);
    out
}

/// The components of a found path that decide whether it is hidden: those
/// of what is shown of it below `base` (the whole path when `base` does not
/// lead it), as `Path::components` yields them.
pub open spec fn examined_components(path: Seq<char>, base: Seq<char>) -> Seq<Seq<char>> {
    path_comps(shown_path(path, base))
}

/// Whether a found path lies in a hidden place: one of its examined
/// components starts with `.`.
pub open spec fn in_hidden_place(path: Seq<char>, base: Seq<char>) -> bool {
    exists|i: int|
        0 <= i < examined_components(path, base).len() && is_hidden_name(
            #[trigger] examined_components(path, base)[i],
        )
}

/// Whether `path` lies in a hidden place below `base`.
pub fn path_in_hidden_place(path: &str, base: &str) -> (r: bool)
    ensures
        r == in_hidden_place(path@, base@),
{
    let p = chars_of(path);
    let b = chars_of(base);
    let shown = shown_path_of(p.as_slice(), b.as_slice());
    let comps = path_comps_of(shown.as_slice());
    let ghost cv = char_views(comps@);
    assert(cv == examined_components(path@, base@));
    let mut i: usize = 0;
    while i < comps.len()
        invariant
            i <= comps@.len(),
            cv == char_views(comps@),
            cv == examined_components(path@, base@),
            forall|k: int| 0 <= k < i ==> !is_hidden_name(#[trigger] cv[k]),
        decreases comps@.len() - i,
    {
        assert(cv[i as int] == comps@[i as int]@);
        if comps[i].len() > 0 && comps[i][0] == '.' {
            assert(is_hidden_name(examined_components(path@, base@)[i as int]));
            return true;
        }
        i = i + 1;
    }
    false
}

/// Whether a global search keeps a found entry.
pub open spec fn global_keep(e: DirectoryEntry, base: Seq<char>, show_hidden: bool) -> bool {
    show_hidden || !in_hidden_place(e.path@, base)
}

/// The number of directories in `s`.
pub open spec fn directory_count(s: Seq<DirectoryEntry>) -> nat
    decreases s.len(),
{
    if s.len() == 0 {
        0
    } else {
        directory_count(s.drop_last()) + if s.last().entry_type == EntryType::Directory {
            1nat
        } else {
            0nat
        }
    }
}

/// The entries a global search shows, from what the remote search found:
/// entries in hidden places are dropped unless `show_hidden`. After each
/// entry kept, `on_progress` is called with the number of directories kept
/// so far, and the search stops with what it has at the first call that
/// answers `false`.
pub fn global_find_results<F: Fn(usize) -> bool>(
    found: Vec<DirectoryEntry>,
    base: &str,
    show_hidden: bool,
    on_progress: F,
) -> (r: Vec<DirectoryEntry>)
    requires
        forall|n: usize| call_requires(on_progress, (n,)),
    ensures
        ({
            let kept = found@.filter(|e: DirectoryEntry| global_keep(e, base@, show_hidden));
            &&& r@.len() <= kept.len()
            &&& r@ == kept.take(r@.len() as int)
            &&& forall|i: int|
                0 <= i < r@.len() - 1 ==> #[trigger] call_ensures(
                    on_progress,
                    ((directory_count(r@.take(i + 1)) as usize),),
                    true,
                )
            &&& r@.len() < kept.len() ==> r@.len() >= 1 && call_ensures(
                on_progress,
                ((directory_count(r@) as usize),),
                false,
            )
        }),
{
    let ghost kept = found@.filter(|e: DirectoryEntry| global_keep(e, base@, show_hidden));
    let mut out: Vec<DirectoryEntry> = Vec::new();
    let mut dirs: usize = 0;
    let mut i: usize = 0;
    while i < found.len()
        invariant
            i <= found@.len(),
            forall|n: usize| call_requires(on_progress, (n,)),
            kept == found@.filter(|e: DirectoryEntry| global_keep(e, base@, show_hidden)),
            out@ == found@.take(i as int).filter(
                |e: DirectoryEntry| global_keep(e, base@, show_hidden),
            ),
            dirs as nat == directory_count(out@),
            dirs <= out@.len(),
            forall|k: int|
                0 <= k < out@.len() ==> #[trigger] call_ensures(
                    on_progress,
                    ((directory_count(out@.take(k + 1)) as usize),),
                    true,
                ),
        decreases found@.len() - i,
    {
        let e = &found[i];
        let keep = show_hidden || !path_in_hidden_place(e.path.as_str(), base);
        proof {
            reveal_with_fuel(Seq::filter, 1);
            assert(found@.take(i + 1).drop_last() == found@.take(i as int));
        }
        if keep {
            let ghost before = out@;
            if e.entry_type == EntryType::Directory {
                dirs = dirs + 1;
            }
            out.push(e.duplicate());
            assert(out@.drop_last() == before);
            assert forall|k: int| 0 <= k < before.len() implies #[trigger] out@.take(k + 1)
                == before.take(k + 1) by {
                assert(out@.take(k + 1) =~= before.take(k + 1));
            }
            assert(out@.take(out@.len() as int) == out@);
            let go_on = on_progress(dirs);
            if !go_on {
                proof {
                    lemma_filter_prefix(found@, i + 1, base@, show_hidden);
                    assert(out@ == kept.take(out@.len() as int));
                    assert forall|k: int| 0 <= k < out@.len() - 1 implies #[trigger] call_ensures(
                        on_progress,
                        ((directory_count(out@.take(k + 1)) as usize),),
                        true,
                    ) by {
                        assert(out@.take(k + 1) == before.take(k + 1));
                    }
                }
                return out;
            }
            assert forall|k: int| 0 <= k < out@.len() implies #[trigger] call_ensures(
                on_progress,
                ((directory_count(out@.take(k + 1)) as usize),),
                true,
            ) by {
                if k < before.len() {
                    assert(out@.take(k + 1) == before.take(k + 1));
                }
            }
        }
        i = i + 1;
    }
    assert(found@.take(found@.len() as int) == found@);
    assert(kept.take(kept.len() as int) == kept);
    assert(out@ == kept.take(kept.len() as int));
    out
}

/// What a prefix of the found entries keeps is a prefix of what all of them
/// keep.
proof fn lemma_filter_prefix(found: Seq<DirectoryEntry>, i: int, base: Seq<char>, show_hidden: bool)
    requires
        0 <= i <= found.len(),
    ensures
        ({
            let kept = found.filter(|e: DirectoryEntry| global_keep(e, base, show_hidden));
            let part = found.take(i).filter(|e: DirectoryEntry| global_keep(e, base, show_hidden));
            part.len() <= kept.len() && kept.take(part.len() as int) == part
        }),
    decreases found.len() - i,
{
    let f = |e: DirectoryEntry| global_keep(e, base, show_hidden);
    if i < found.len() {
        lemma_filter_prefix(found, i + 1, base, show_hidden);
        reveal_with_fuel(Seq::filter, 1);
        assert(found.take(i + 1).drop_last() == found.take(i));
        let kept = found.filter(f);
        let part1 = found.take(i + 1).filter(f);
        let part = found.take(i).filter(f);
        if f(found[i]) {
            assert(part1 == part.push(found[i]));
            assert(kept.take(part.len() as int) =~= part1.take(part.len() as int));
            assert(part1.take(part.len() as int) =~= part);
        } else {
            assert(part1 == part);
        }
    } else {
        assert(found.take(i) == found);
        let kept = found.filter(f);
        assert(kept.take(kept.len() as int) == kept);
    }
}

} // verus!
