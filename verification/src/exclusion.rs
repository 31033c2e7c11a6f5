//! The fixed exclusion sets: entry names never copied from a template into
//! the output, checked by exact name match.

use vstd::prelude::*;

use crate::text::str_eq;

verus! {

/// The file at this path inside a template describes which files to rewrite.
pub const TEMPLATE_CONFIG_FILE: &'static str = "template_config.json";

/// Directory names excluded from the copy: dependency caches and build
/// output directories.
pub open spec fn is_excluded_dir_name(name: Seq<char>) -> bool {
    ||| name == "node_modules"@
    ||| name == ".next"@
    ||| name == ".turbo"@
    ||| name == "dist"@
    ||| name == "build"@
    ||| name == "out"@
}

/// File names excluded from the copy: the manifest itself, which must never
/// appear verbatim in the output.
pub open spec fn is_excluded_file_name(name: Seq<char>) -> bool {
    name == "template_config.json"@
}

/// Whether an entry of either kind is excluded from the copy.
pub open spec fn is_excluded_name(name: Seq<char>) -> bool {
    is_excluded_dir_name(name) || is_excluded_file_name(name)
}

/// True exactly when `name` is a member of the excluded-directories set or
/// the excluded-files set. No side effects.
pub fn is_excluded(name: &str) -> (r: bool)
    ensures
        r == is_excluded_name(name@),
{
    str_eq(name, "node_modules") || str_eq(name, ".next") || str_eq(name, ".turbo")
        || str_eq(name, "dist") || str_eq(name, "build") || str_eq(name, "out")
        || str_eq(name, "template_config.json")
}

} // verus!
