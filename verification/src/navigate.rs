//! Direct path navigation logic.
use vstd::prelude::*;

use crate::paths::{parent_of, file_name_of, path_parent, path_file_name, root};
use crate::text::{chars_of, string_from_chars};

verus! {

/// Result of resolving a navigation target path via stat.
#[derive(Debug, Clone, PartialEq, Eq)]
pub enum NavigateTarget {
    /// The path is a directory — navigate into it.
    Directory(String),
    /// The path is a file — navigate to its parent directory and highlight the file.
    File { parent: String, filename: String },
}

/// Whether `input` is an absolute path: not empty and starting with `/`.
pub open spec fn is_absolute_input(input: Seq<char>) -> bool {
    input.len() > 0 && input[0] == '/'
}

/// Validate that the input is an absolute path (starts with '/').
pub fn validate_absolute_path(input: &str) -> (r: bool)
    ensures
        r == is_absolute_input(input@),
{
    let v = chars_of(input);
    v.len() > 0 && v[0] == '/'
}

/// Where navigating to `path` leads, given whether it is a directory: into
/// it, or to its parent (the root when it has none) with its last name
/// highlighted (empty when it has none).
pub open spec fn navigate_outcome(path: Seq<char>, is_dir: bool) -> (bool, Seq<char>, Seq<char>) {
    if is_dir {
        (true, path, Seq::empty())
    } else {
        (
            false,
            match path_parent(path) {
                Some(p) => p,
                None => root(),
            },
            match path_file_name(path) {
                Some(n) => n,
                None => Seq::empty(),
            },
        )
    }
}

/// The view of a navigation target as `(is directory, path, name)`.
pub open spec fn target_view(t: NavigateTarget) -> (bool, Seq<char>, Seq<char>) {
    match t {
        NavigateTarget::Directory(d) => (true, d@, Seq::empty()),
        NavigateTarget::File { parent, filename } => (false, parent@, filename@),
    }
}

/// The navigation target for `path`, once it is known whether it is a
/// directory.
pub fn navigate_target(path: &str, is_dir: bool) -> (r: NavigateTarget)
    ensures
        target_view(r) == navigate_outcome(path@, is_dir),
{
    let v = chars_of(path);
    if is_dir {
        return NavigateTarget::Directory(string_from_chars(v.as_slice()));
    }
    let parent = match parent_of(v.as_slice()) {
        Some(p) => string_from_chars(p.as_slice()),
        None => string_from_chars(&['/']),
    };
    let filename = match file_name_of(v.as_slice()) {
        Some(n) => string_from_chars(n.as_slice()),
        None => String::new(),
    };
    NavigateTarget::File { parent, filename }
}

} // verus!
