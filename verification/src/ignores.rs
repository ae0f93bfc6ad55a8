//! Ignore files: which paths of a tree its `.gitignore` files leave out.

use crate::paths::pieces;
use jj_lib::gitignore::GitIgnoreFile;
use jj_lib::repo_path::RepoPath;
use std::path::Path;
use std::sync::Arc;
use vstd::prelude::*;

verus! {

/// `jj_lib::gitignore::GitIgnoreFile`, the ignore files in force at some
/// directory of a tree.
#[verifier::external_type_specification]
#[verifier::external_body]
pub struct ExGitIgnoreFile(GitIgnoreFile);

/// The ignore files a `GitIgnoreFile` chains, outermost first: the directory
/// of each, and what it says.
pub uninterp spec fn ignore_files(ignores: GitIgnoreFile) -> Seq<(Seq<char>, Seq<u8>)>;

/// Whether chained ignore files leave a directory out, as
/// `GitIgnoreFile::matches_dir` tells.
pub uninterp spec fn leaves_dir_out(files: Seq<(Seq<char>, Seq<u8>)>, path: Seq<char>) -> bool;

/// Whether chained ignore files leave a file out, as
/// `GitIgnoreFile::matches_file` tells.
pub uninterp spec fn leaves_file_out(files: Seq<(Seq<char>, Seq<u8>)>, path: Seq<char>) -> bool;

/// Whether a text is the path of something in a tree, or of its root: none
/// of its pieces is empty, unless it is empty itself.
pub open spec fn is_tree_path(path: Seq<char>) -> bool {
    path.len() == 0 || forall|i: int|
        0 <= i < pieces(path).len() ==> (#[trigger] pieces(path)[i]).len() > 0
}

/// No ignore file at all, from `GitIgnoreFile::empty`.
#[verifier::external_body]
pub(crate) fn no_ignores() -> (r: Arc<GitIgnoreFile>)
    ensures
        ignore_files(*r) == Seq::<(Seq<char>, Seq<u8>)>::empty(),
{
    GitIgnoreFile::empty()
}

/// The ignore files with one more behind them, by `GitIgnoreFile::chain`:
/// what it says applies to paths under its directory. It takes any rules,
/// and any directory of a tree.
#[verifier::external_body]
pub(crate) fn chained(ignores: &Arc<GitIgnoreFile>, dir: &str, rules: &[u8]) -> (r: Result<
    Arc<GitIgnoreFile>,
    String,
>)
    requires
        is_tree_path(dir@),
    ensures
        r is Ok,
        ignore_files(*(r->Ok_0)) == ignore_files(**ignores).push((dir@, rules@)),
{
    let prefix = RepoPath::from_internal_string(dir).map_err(|error| error.to_string())?;
    ignores.chain(prefix, Path::new(".gitignore"), rules).map_err(|error| error.to_string())
}

/// Whether the ignore files leave a directory out, by
/// `GitIgnoreFile::matches_dir`. It takes any path of a tree.
#[verifier::external_body]
pub(crate) fn ignores_dir(ignores: &Arc<GitIgnoreFile>, path: &str) -> (r: Result<bool, String>)
    requires
        is_tree_path(path@),
    ensures
        r is Ok,
        r->Ok_0 == leaves_dir_out(ignore_files(**ignores), path@),
{
    let path = RepoPath::from_internal_string(path).map_err(|error| error.to_string())?;
    Ok(ignores.matches_dir(path))
}

/// Whether the ignore files leave a file out, by
/// `GitIgnoreFile::matches_file`. It takes any path of a tree.
#[verifier::external_body]
pub(crate) fn ignores_file(ignores: &Arc<GitIgnoreFile>, path: &str) -> (r: Result<bool, String>)
    requires
        is_tree_path(path@),
    ensures
        r is Ok,
        r->Ok_0 == leaves_file_out(ignore_files(**ignores), path@),
{
    let path = RepoPath::from_internal_string(path).map_err(|error| error.to_string())?;
    Ok(ignores.matches_file(path))
}

} // verus!
