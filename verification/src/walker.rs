//! The walk of a tree: which files it yields.

use vstd::prelude::*;
use crate::manifest::{manifest_file, manifest_path};
use crate::paths::RelPath;
use crate::text::str_eq;

verus! {

/// Whether the walk of a tree yields the file at `path`: every file but the
/// manifest file at the root.
pub fn walker_admits(path: &str) -> (admitted: bool)
    ensures
        admitted == (path@ != manifest_file()),
{
    !str_eq(path, "comstar.json")
}

/// What the walk of a tree goes by.
#[derive(Debug, PartialEq, Eq)]
pub struct WalkerConfig {
    /// The name of the files that list, in gitignore syntax, what the walk
    /// leaves out below their directory.
    pub ignore_file: String,
    /// The one file that the walk leaves out whatever the ignore files say.
    pub excluded: RelPath,
}

/// The name of the ignore files.
pub open spec fn ignore_file() -> Seq<char> {
    ".comstarignore"@
}

/// The settings of the walk: ignore files are named `.comstarignore`, and
/// the manifest file at the root is never yielded.
pub fn get_walker() -> (config: WalkerConfig)
    ensures
        config.ignore_file@ == ignore_file(),
        config.excluded@ == manifest_file(),
{
    WalkerConfig { ignore_file: ".comstarignore".to_owned(), excluded: manifest_path() }
}

} // verus!
