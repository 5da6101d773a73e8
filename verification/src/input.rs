//! Alternative entry points for the path processing of [`crate::paths`]:
//! the same operations under the names that input handling goes by.

use vstd::prelude::*;

use crate::paths;
use crate::paths::{spec_file_name, spec_push, spec_parent, spec_strip_prefix, spec_key_name};

verus! {

/// The file name at the end of the path: what follows the last separator.
pub fn file_name(path: &str) -> (r: String)
    ensures
        r@ == spec_file_name(path@),
{
    paths::file_name(path)
}

/// Returns the child `suffix` of the path `base`.
pub fn child_path(base: &str, suffix: &str) -> (r: String)
    ensures
        r@ == spec_push(base@, suffix@),
{
    paths::push(base, suffix)
}

/// Drops the file name and strips the base directory from a file path.
pub fn sanitize_path(path: &str, base: &str) -> (r: Option<String>)
    ensures
        match r {
            Some(s) => spec_strip_prefix(spec_parent(path@), base@) == Some(s@),
            None => spec_strip_prefix(spec_parent(path@), base@) is None,
        },
{
    paths::sanitize_path(path, base)
}

/// A file path as a snapshot key.
pub fn path_buf_to_key_name(path: &str) -> (r: String)
    ensures
        r@ == spec_key_name(path@),
{
    paths::path_buf_to_key_name(path)
}

} // verus!
