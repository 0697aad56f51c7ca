use vstd::prelude::*;

use crate::classifier::is_source_extension;
use crate::classifier::recognized_extension;
use crate::text::last_index_of;
use crate::text::last_occurrence;
use crate::text::lemma_last_occurrence_props;

verus! {

/// The final component of a `/`-separated relative path: what follows the
/// last separator, or the whole path when it has none.
pub open spec fn spec_file_name(path: Seq<char>) -> Seq<char> {
    match last_occurrence(path, '/') {
        Some(i) => path.subrange(i + 1, path.len() as int),
        None => path,
    }
}

/// The extension of the final path component: what follows its last dot.
/// A name with no dot has no extension, and neither has a name whose only
/// dot is its first character (a dotfile).
pub open spec fn spec_extension(path: Seq<char>) -> Option<Seq<char>> {
    let name = spec_file_name(path);
    match last_occurrence(name, '.') {
        Some(j) => if j > 0 {
            Some(name.subrange(j + 1, name.len() as int))
        } else {
            None
        },
        None => None,
    }
}

/// A path is selected for extraction exactly when it carries a recognized
/// source-code extension.
pub open spec fn selected(path: Seq<char>) -> bool {
    match spec_extension(path) {
        Some(e) => recognized_extension(e),
        None => false,
    }
}

/// Returns the final component of a `/`-separated relative path.
pub fn file_name_of<'a>(path: &'a str) -> (r: &'a str)
    ensures
        r@ == spec_file_name(path@),
{
    let n = path.unicode_len();
    match last_index_of(path, '/') {
        Some(i) => {
            proof {
                lemma_last_occurrence_props(path@, '/');
            }
            path.substring_char(i + 1, n)
        },
        None => path,
    }
}

/// Returns the extension of the path's final component, without the dot.
pub fn extension_of<'a>(path: &'a str) -> (r: Option<&'a str>)
    ensures
        match r {
            Some(e) => spec_extension(path@) == Some(e@),
            None => spec_extension(path@) is None,
        },
{
    let name = file_name_of(path);
    let n = name.unicode_len();
    match last_index_of(name, '.') {
        Some(j) => {
            if j > 0 {
                proof {
                    lemma_last_occurrence_props(name@, '.');
                }
                Some(name.substring_char(j + 1, n))
            } else {
                None
            }
        },
        None => None,
    }
}

/// Decides whether the file at `path` is to be extracted: true exactly when
/// its extension is in the recognized set.
pub fn is_selected_path(path: &str) -> (r: bool)
    ensures
        r == selected(path@),
{
    match extension_of(path) {
        Some(e) => is_source_extension(e),
        None => false,
    }
}

} // verus!
