//! Trusted boundary to the `git2` crate.
//!
//! Everything the walk learns about a repository comes through the wrappers
//! in this module. Each wrapper's body only makes the named `git2` calls and
//! converts their results to plain values; its contract states no more than
//! the `git2` documentation promises. Repository handles and diffs are
//! opaque here: what they yield depends on the repository on disk, so no
//! wrapper promises anything about the values that come back, and the
//! verified walk is proved for every value they could hand it.

use vstd::prelude::*;
use crate::change::RawKind;

verus! {

#[verifier::external_type_specification]
#[verifier::external_body]
pub struct ExRepository(git2::Repository);

#[verifier::external_type_specification]
#[verifier::external_body]
pub struct ExGitError(git2::Error);

#[verifier::external_type_specification]
#[verifier::external_body]
pub struct ExDiff<'a>(git2::Diff<'a>);

/// Relies on git2::Error::message: the text of a version-control error.
#[verifier::external_body]
pub(crate) fn git_error_message(e: &git2::Error) -> String {
    e.message().to_string()
}

/// Relies on git2::Repository::discover: opens the repository enclosing
/// `path`, walking up through parent directories.
#[verifier::external_body]
pub(crate) fn repo_discover(path: &str) -> Result<git2::Repository, git2::Error> {
    git2::Repository::discover(path)
}

/// Relies on git2::Repository::head and git2::Reference::peel_to_commit:
/// the identity of the commit the current branch points at.
#[verifier::external_body]
pub(crate) fn head_commit_id(repo: &git2::Repository) -> Result<Vec<u8>, git2::Error> {
    Ok(repo.head()?.peel_to_commit()?.id().as_bytes().to_vec())
}

/// Relies on git2::Repository::find_commit and git2::Commit::parent_ids:
/// the identities of the commit's parents, first parent first.
#[verifier::external_body]
pub(crate) fn commit_parent_ids(repo: &git2::Repository, id: &Vec<u8>) -> Result<
    Vec<Vec<u8>>,
    git2::Error,
> {
    let commit = repo.find_commit(git2::Oid::from_bytes(id)?)?;
    Ok(commit.parent_ids().map(|p| p.as_bytes().to_vec()).collect())
}

/// Relies on git2::Commit::author and git2::Time: the author time of the
/// commit as seconds since the epoch, with the recorded timezone offset in
/// minutes east of UTC.
#[verifier::external_body]
pub(crate) fn commit_author_time(repo: &git2::Repository, id: &Vec<u8>) -> Result<
    (i64, i32),
    git2::Error,
> {
    let commit = repo.find_commit(git2::Oid::from_bytes(id)?)?;
    let when = commit.author().when();
    Ok((when.seconds(), when.offset_minutes()))
}

/// Relies on git2::Commit::message: the commit message, absent where it is
/// not valid text.
#[verifier::external_body]
pub(crate) fn commit_message(repo: &git2::Repository, id: &Vec<u8>) -> Result<
    Option<String>,
    git2::Error,
> {
    let commit = repo.find_commit(git2::Oid::from_bytes(id)?)?;
    Ok(commit.message().ok().map(|m| m.to_string()))
}

/// Relies on git2::Repository::diff_tree_to_tree (with git2::Commit::tree
/// for both ends): the structural diff from the first parent's tree (or the
/// empty tree, for a root commit) to the commit's tree.
#[verifier::external_body]
pub(crate) fn commit_parent_diff<'a>(
    repo: &'a git2::Repository,
    id: &Vec<u8>,
    parent: Option<&Vec<u8>>,
) -> Result<git2::Diff<'a>, git2::Error> {
    let tree = repo.find_commit(git2::Oid::from_bytes(id)?)?.tree()?;
    let parent_tree = match parent {
        Some(p) => Some(repo.find_commit(git2::Oid::from_bytes(p)?)?.tree()?),
        None => None,
    };
    repo.diff_tree_to_tree(parent_tree.as_ref(), Some(&tree), None)
}

/// Relies on git2::Repository::diff_tree_to_workdir_with_index, with
/// include_untracked and recurse_untracked_dirs set: the structural diff
/// from the branch tip's tree to the actual working contents, untracked
/// files included.
#[verifier::external_body]
pub(crate) fn workdir_diff<'a>(repo: &'a git2::Repository, tip: &Vec<u8>) -> Result<
    git2::Diff<'a>,
    git2::Error,
> {
    let tree = repo.find_commit(git2::Oid::from_bytes(tip)?)?.tree()?;
    let mut opts = git2::DiffOptions::new();
    opts.include_untracked(true).recurse_untracked_dirs(true);
    repo.diff_tree_to_workdir_with_index(Some(&tree), Some(&mut opts))
}

/// Relies on git2::Diff::find_similar with renames and exact_match_only
/// set: rewrites the diff's entries so that an exact-content rename is
/// reported as one renamed entry instead of a deleted and an added one.
/// Similarity-based rename detection stays off.
#[verifier::external_body]
pub(crate) fn diff_find_exact_renames(diff: &mut git2::Diff<'_>) -> Result<(), git2::Error> {
    let mut opts = git2::DiffFindOptions::new();
    opts.renames(true).exact_match_only(true);
    diff.find_similar(Some(&mut opts))
}

/// Relies on git2::Diff::deltas: how many file entries the diff holds.
#[verifier::external_body]
pub(crate) fn diff_len(diff: &git2::Diff<'_>) -> usize {
    diff.deltas().len()
}

/// Relies on git2::Diff::get_delta and git2::DiffDelta::status: the status
/// of the diff entry at `i`, each status mapped to its own kind.
#[verifier::external_body]
pub(crate) fn diff_delta_kind(diff: &git2::Diff<'_>, i: usize) -> Option<RawKind> {
    Some(
        match diff.get_delta(i)?.status() {
            git2::Delta::Unmodified => RawKind::Unmodified,
            git2::Delta::Added => RawKind::Added,
            git2::Delta::Deleted => RawKind::Deleted,
            git2::Delta::Modified => RawKind::Modified,
            git2::Delta::Renamed => RawKind::Renamed,
            git2::Delta::Copied => RawKind::Copied,
            git2::Delta::Ignored => RawKind::Ignored,
            git2::Delta::Untracked => RawKind::Untracked,
            git2::Delta::Typechange => RawKind::Typechange,
            git2::Delta::Unreadable => RawKind::Unreadable,
            git2::Delta::Conflicted => RawKind::Conflicted,
        },
    )
}

/// Relies on git2::DiffDelta::old_file and git2::DiffFile::path_bytes: the
/// path of the old side of the diff entry at `i`, relative to the
/// repository root.
#[verifier::external_body]
pub(crate) fn diff_delta_old_path(diff: &git2::Diff<'_>, i: usize) -> Option<Vec<u8>> {
    diff.get_delta(i)?.old_file().path_bytes().map(|p| p.to_vec())
}

/// Relies on git2::DiffDelta::new_file and git2::DiffFile::path_bytes: the
/// path of the new side of the diff entry at `i`, relative to the
/// repository root.
#[verifier::external_body]
pub(crate) fn diff_delta_new_path(diff: &git2::Diff<'_>, i: usize) -> Option<Vec<u8>> {
    diff.get_delta(i)?.new_file().path_bytes().map(|p| p.to_vec())
}

/// Relies on git2::DiffDelta::new_file and git2::DiffFile::id: the identity
/// of the content on the new side of the diff entry at `i` (all zeroes
/// where that side is absent).
#[verifier::external_body]
pub(crate) fn diff_delta_new_id(diff: &git2::Diff<'_>, i: usize) -> Option<Vec<u8>> {
    Some(diff.get_delta(i)?.new_file().id().as_bytes().to_vec())
}

/// Relies on chrono::Local::now: the current wall-clock time as seconds
/// since the epoch with the machine's current offset from UTC in seconds.
/// The value depends on the clock, so nothing is promised of it.
#[verifier::external_body]
pub(crate) fn now_raw() -> (i64, i32) {
    let now = chrono::Local::now().fixed_offset();
    (now.timestamp(), now.offset().local_minus_utc())
}

} // verus!
