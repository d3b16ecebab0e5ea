//! Integration tests against real repositories, built object by object
//! through git2 so that the trusted wrappers run against genuine history.

use pointwise_gen::errors::WalkError;
use pointwise_gen::orchestrate::revwalk_update_store;
use pointwise_gen::times::Timestamp;

const FILE_MODE: i32 = 0o100644;
const DIR_MODE: i32 = 0o040000;

fn signature(seconds: i64, offset_minutes: i32) -> git2::Signature<'static> {
    git2::Signature::new("dev", "dev@example.com", &git2::Time::new(seconds, offset_minutes))
        .unwrap()
}

/// A tree holding `posts/<name>` for each (name, blob) pair.
fn posts_tree(repo: &git2::Repository, files: &[(&str, git2::Oid)]) -> git2::Oid {
    let mut posts = repo.treebuilder(None).unwrap();
    for (name, blob) in files {
        posts.insert(*name, *blob, FILE_MODE).unwrap();
    }
    let posts_oid = posts.write().unwrap();
    let mut root = repo.treebuilder(None).unwrap();
    root.insert("posts", posts_oid, DIR_MODE).unwrap();
    root.write().unwrap()
}

fn commit(
    repo: &git2::Repository,
    seconds: i64,
    message: &str,
    tree: git2::Oid,
    parents: &[git2::Oid],
) -> git2::Oid {
    let sig = signature(seconds, 60);
    let tree = repo.find_tree(tree).unwrap();
    let parent_commits: Vec<git2::Commit> =
        parents.iter().map(|p| repo.find_commit(*p).unwrap()).collect();
    let parent_refs: Vec<&git2::Commit> = parent_commits.iter().collect();
    repo.commit(Some("HEAD"), &sig, &sig, message, &tree, &parent_refs).unwrap()
}

fn walk(
    dir: &tempfile::TempDir,
    marker: Option<&str>,
    names: &[&str],
) -> Vec<pointwise_gen::store::ProvenanceRecord> {
    let seed: Vec<Vec<u8>> = names.iter().map(|n| n.as_bytes().to_vec()).collect();
    revwalk_update_store(dir.path().to_str().unwrap(), &b"posts".to_vec(), marker, &seed).unwrap()
}

fn ts(seconds: i64) -> Timestamp {
    Timestamp { seconds, offset_minutes: 60 }
}

#[test]
fn repo_create_then_modify() {
    let td = tempfile::TempDir::new().unwrap();
    let repo = git2::Repository::init(td.path()).unwrap();
    let blob1 = repo.blob(b"first draft").unwrap();
    let c1 = commit(&repo, 1_000_000, "add post", posts_tree(&repo, &[("2024-01-05-x.md", blob1)]), &[]);
    let blob2 = repo.blob(b"second draft").unwrap();
    commit(&repo, 2_000_000, "edit post", posts_tree(&repo, &[("2024-01-05-x.md", blob2)]), &[c1]);

    let recs = walk(&td, None, &["2024-01-05-x.md"]);
    assert_eq!(recs.len(), 1);
    let (publish, update) = recs[0].resolve_times(None, None, ts(9_000_000));
    assert_eq!(publish, ts(1_000_000));
    assert_eq!(update, Some(ts(2_000_000)));
    // The recorded timezone offset survives extraction.
    assert_eq!(recs[0].created.as_ref().unwrap().time.offset_minutes, 60);
}

#[test]
fn repo_single_commit_suppresses_update() {
    let td = tempfile::TempDir::new().unwrap();
    let repo = git2::Repository::init(td.path()).unwrap();
    let blob1 = repo.blob(b"only draft").unwrap();
    commit(&repo, 1_000_000, "add post", posts_tree(&repo, &[("2024-01-05-x.md", blob1)]), &[]);

    let recs = walk(&td, None, &["2024-01-05-x.md"]);
    let (publish, update) = recs[0].resolve_times(None, None, ts(9_000_000));
    assert_eq!(publish, ts(1_000_000));
    assert_eq!(update, None);
}

#[test]
fn repo_rename_keeps_creation() {
    // The rename carries the identical blob, so exact-content rename
    // detection reports it as a rename and the creation resolves through
    // the older name.
    let td = tempfile::TempDir::new().unwrap();
    let repo = git2::Repository::init(td.path()).unwrap();
    let blob1 = repo.blob(b"stable content").unwrap();
    let c1 = commit(&repo, 1_000_000, "add post", posts_tree(&repo, &[("2024-01-05-a.md", blob1)]), &[]);
    commit(&repo, 2_000_000, "rename post", posts_tree(&repo, &[("2024-01-06-b.md", blob1)]), &[c1]);

    let recs = walk(&td, None, &["2024-01-06-b.md"]);
    let (publish, update) = recs[0].resolve_times(None, None, ts(9_000_000));
    assert_eq!(publish, ts(1_000_000));
    assert_eq!(update, None);
}

#[test]
fn repo_marker_excludes_commit_time() {
    let td = tempfile::TempDir::new().unwrap();
    let repo = git2::Repository::init(td.path()).unwrap();
    let blob1 = repo.blob(b"first draft").unwrap();
    let c1 = commit(&repo, 1_000_000, "add post", posts_tree(&repo, &[("2024-01-05-x.md", blob1)]), &[]);
    let blob2 = repo.blob(b"second draft").unwrap();
    commit(
        &repo,
        2_000_000,
        "tidy whitespace [no-publish-time]",
        posts_tree(&repo, &[("2024-01-05-x.md", blob2)]),
        &[c1],
    );

    let with_marker = walk(&td, Some("[no-publish-time]"), &["2024-01-05-x.md"]);
    let (publish, update) = with_marker[0].resolve_times(None, None, ts(9_000_000));
    assert_eq!(publish, ts(1_000_000));
    assert_eq!(update, None);

    let without_marker = walk(&td, None, &["2024-01-05-x.md"]);
    let (publish2, update2) = without_marker[0].resolve_times(None, None, ts(9_000_000));
    assert_eq!(publish2, ts(1_000_000));
    assert_eq!(update2, Some(ts(2_000_000)));
}

#[test]
fn repo_never_committed_file_gets_now() {
    // A seeded file no commit has ever carried: its record stays fresh and
    // resolves to the supplied wall-clock time, with no update time.
    let td = tempfile::TempDir::new().unwrap();
    let repo = git2::Repository::init(td.path()).unwrap();
    let blob1 = repo.blob(b"other post").unwrap();
    commit(&repo, 1_000_000, "add post", posts_tree(&repo, &[("2024-01-05-x.md", blob1)]), &[]);

    let recs = walk(&td, None, &["2024-02-01-new.md"]);
    assert!(recs[0].created.is_none());
    assert!(recs[0].updated.is_none());
    let now = ts(5_000_000);
    let (publish, update) = recs[0].resolve_times(None, None, now);
    assert_eq!(publish, now);
    assert_eq!(update, None);
}

#[test]
fn repo_nested_changes_ignored() {
    // A change one level below a subdirectory of the tracked directory is
    // not a direct child and contributes nothing.
    let td = tempfile::TempDir::new().unwrap();
    let repo = git2::Repository::init(td.path()).unwrap();
    let blob1 = repo.blob(b"nested").unwrap();
    let mut drafts = repo.treebuilder(None).unwrap();
    drafts.insert("2024-01-05-x.md", blob1, FILE_MODE).unwrap();
    let drafts_oid = drafts.write().unwrap();
    let mut posts = repo.treebuilder(None).unwrap();
    posts.insert("drafts", drafts_oid, DIR_MODE).unwrap();
    let posts_oid = posts.write().unwrap();
    let mut root = repo.treebuilder(None).unwrap();
    root.insert("posts", posts_oid, DIR_MODE).unwrap();
    let tree = root.write().unwrap();
    commit(&repo, 1_000_000, "add nested", tree, &[]);

    let recs = walk(&td, None, &["2024-01-05-x.md"]);
    assert!(recs[0].created.is_none());
}

#[test]
fn repo_merge_prefers_first_parent_view() {
    // Two branches rename the same file differently and are then merged,
    // keeping the first parent's name. The walk resolves the creation
    // through the first-visited parent's lineage; had the other side's
    // view won, the creating commit would not resolve at all.
    let td = tempfile::TempDir::new().unwrap();
    let repo = git2::Repository::init(td.path()).unwrap();
    let blob1 = repo.blob(b"shared content").unwrap();
    let base = commit(&repo, 1_000_000, "add post", posts_tree(&repo, &[("2024-01-05-a.md", blob1)]), &[]);
    let left_tree = posts_tree(&repo, &[("2024-01-06-b.md", blob1)]);
    let left = commit(&repo, 3_000_000, "rename one way", left_tree, &[base]);
    // The side branch leaves the current branch alone.
    let right_sig = signature(2_000_000, 60);
    let right_tree_oid = posts_tree(&repo, &[("2024-01-07-c.md", blob1)]);
    let right_tree = repo.find_tree(right_tree_oid).unwrap();
    let base_commit = repo.find_commit(base).unwrap();
    let right = repo
        .commit(None, &right_sig, &right_sig, "rename another way", &right_tree, &[&base_commit])
        .unwrap();
    // The merge keeps the first parent's tree and names `left` first.
    let sig = signature(4_000_000, 60);
    let tree = repo.find_tree(left_tree).unwrap();
    let left_commit = repo.find_commit(left).unwrap();
    let right_commit = repo.find_commit(right).unwrap();
    repo.commit(Some("HEAD"), &sig, &sig, "merge", &tree, &[&left_commit, &right_commit]).unwrap();

    let recs = walk(&td, None, &["2024-01-06-b.md"]);
    assert_eq!(recs[0].created.as_ref().unwrap().time, ts(1_000_000));
    let (publish, update) = recs[0].resolve_times(None, None, ts(9_000_000));
    assert_eq!(publish, ts(1_000_000));
    assert_eq!(update, None);
}

#[test]
fn repo_unborn_head_is_git_error() {
    let td = tempfile::TempDir::new().unwrap();
    git2::Repository::init(td.path()).unwrap();
    let seed: Vec<Vec<u8>> = vec![b"2024-01-05-x.md".to_vec()];
    let r = revwalk_update_store(td.path().to_str().unwrap(), &b"posts".to_vec(), None, &seed);
    assert!(matches!(r, Err(WalkError::Git(_))));
}

#[test]
fn repo_history_shape_is_validated() {
    // The built history starts at the live snapshot and holds one node per
    // commit after it, each parent standing after its child.
    let td = tempfile::TempDir::new().unwrap();
    let repo = git2::Repository::init(td.path()).unwrap();
    let blob1 = repo.blob(b"a").unwrap();
    let c1 = commit(&repo, 1_000_000, "one", posts_tree(&repo, &[("2024-01-05-x.md", blob1)]), &[]);
    let blob2 = repo.blob(b"b").unwrap();
    commit(&repo, 2_000_000, "two", posts_tree(&repo, &[("2024-01-05-x.md", blob2)]), &[c1]);

    let opened = git2::Repository::discover(td.path()).unwrap();
    let history =
        pointwise_gen::orchestrate::build_history(&opened, &b"posts".to_vec(), None).unwrap();
    assert_eq!(history.nodes.len(), 3);
    assert_eq!(history.nodes[0].parents, vec![1]);
    assert!(history.nodes[0].timestamp.is_none());
    for (i, node) in history.nodes.iter().enumerate() {
        for p in &node.parents {
            assert!(*p > i && *p < history.nodes.len());
        }
    }
}

#[test]
fn repo_missing_reports_discovery_error() {
    let td = tempfile::TempDir::new().unwrap();
    let seed: Vec<Vec<u8>> = vec![b"2024-01-05-x.md".to_vec()];
    let r = revwalk_update_store(td.path().to_str().unwrap(), &b"posts".to_vec(), None, &seed);
    assert!(matches!(r, Err(WalkError::Discovery(_))));
}
