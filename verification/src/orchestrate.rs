//! Drives a walk against a real repository: discovers the reachable
//! commits, orders them newest-reachable-first, validates the order with an
//! explicit check (the order is never taken on faith from the
//! version-control layer), classifies each revision's changes, and runs the
//! verified walk over the result.

use vstd::prelude::*;
use crate::change::Change;
use crate::change::RawChange;
use crate::change::classify_change;
use crate::errors::WalkError;
use crate::git;
use crate::history::History;
use crate::history::RevNode;
use crate::history::has_child;
use crate::ids::ObjectId;
use crate::ids::bytes_eq;
use crate::lineage::distinct_names;
use crate::names::text_contains;
use crate::ordering::adj_view;
use crate::ordering::assemble_history;
use crate::store::ProvenanceRecord;
use crate::times::Timestamp;
use crate::walk::records_view;
use crate::walk::run_walk;
use crate::walk::walk_records;

verus! {

/// The current wall-clock time. Nothing is promised of the value: whatever
/// the clock reports is converted to a timestamp with the machine's offset
/// rounded to whole minutes.
pub fn now_timestamp() -> Timestamp {
    let raw = git::now_raw();
    Timestamp { seconds: raw.0, offset_minutes: raw.1 / 60 }
}

fn find_id(ids: &Vec<Vec<u8>>, id: &Vec<u8>) -> (r: Option<usize>)
    ensures
        match r {
            Some(j) => j < ids@.len(),
            None => true,
        },
{
    let mut j: usize = 0;
    while j < ids.len()
        invariant
            j <= ids@.len(),
        decreases ids.len() - j,
    {
        if bytes_eq(&ids[j], id) {
            return Some(j);
        }
        j = j + 1;
    }
    None
}

/// Reads one diff's entries through the trusted wrappers and keeps the
/// classified changes that concern direct children of the tracked
/// directory.
fn collect_changes(diff: &git2::Diff<'_>, tracked_dir: &Vec<u8>) -> Vec<Change> {
    let mut out: Vec<Change> = Vec::new();
    let n = git::diff_len(diff);
    let mut i: usize = 0;
    while i < n
        decreases n - i,
    {
        match git::diff_delta_kind(diff, i) {
            None => {},
            Some(kind) => {
                let content = match git::diff_delta_new_id(diff, i) {
                    Some(bytes) => ObjectId { bytes },
                    None => ObjectId { bytes: Vec::new() },
                };
                let raw = RawChange {
                    kind,
                    old_path: git::diff_delta_old_path(diff, i),
                    new_path: git::diff_delta_new_path(diff, i),
                    content_id: content,
                };
                match classify_change(tracked_dir, &raw) {
                    Some(c) => out.push(c),
                    None => {},
                }
            },
        }
        i = i + 1;
    }
    out
}

fn git_err(e: git2::Error) -> WalkError {
    WalkError::Git(git::git_error_message(&e))
}

/// Whether the history at `h` decides the traversal-order guarantee: the
/// answer is exactly [`History::well_formed`], so a history that passes
/// may be walked and one that fails is corrupt.
fn history_ok(h: &History) -> (r: bool)
    ensures
        r == h.well_formed(),
{
    let n = h.nodes.len();
    if n == 0 {
        return false;
    }
    let mut i: usize = 0;
    while i < n
        invariant
            i <= n,
            n == h.nodes@.len(),
            n == h@.len(),
            forall|a: int, k: int|
                0 <= a < i && 0 <= k < h@[a].parents.len() ==> a < #[trigger] h@[a].parents[k] < n,
        decreases n - i,
    {
        proof {
            assert(h@[i as int] == h.nodes@[i as int]@);
        }
        let node = &h.nodes[i];
        let mut k: usize = 0;
        while k < node.parents.len()
            invariant
                i < n == h@.len(),
                node == h.nodes@[i as int],
                h@[i as int] == h.nodes@[i as int]@,
                k <= node.parents@.len(),
                forall|k2: int|
                    0 <= k2 < k ==> i < #[trigger] h@[i as int].parents[k2] < n,
        decreases node.parents.len() - k,
        {
            let p = node.parents[k];
            proof {
                assert(h@[i as int].parents[k as int] == node.parents@[k as int] as int);
            }
            if !(p > i && p < n) {
                proof {
                    assert(!h.well_formed());
                }
                return false;
            }
            k = k + 1;
        }
        proof {
            assert(h@[i as int].parents.len() == node.parents@.len());
        }
        i = i + 1;
    }
    let mut p: usize = 1;
    while p < n
        invariant
            1 <= p <= n,
            n == h.nodes@.len(),
            n == h@.len(),
            forall|a: int, k: int|
                0 <= a < n && 0 <= k < h@[a].parents.len() ==> a < #[trigger] h@[a].parents[k] < n,
            forall|q: int| 1 <= q < p ==> #[trigger] has_child(h@, q),
        decreases n - p,
    {
        if !node_has_child(h, p) {
            proof {
                assert(!h.well_formed());
            }
            return false;
        }
        p = p + 1;
    }
    proof {
        assert(h.well_formed());
    }
    true
}

fn node_has_child(h: &History, p: usize) -> (r: bool)
    requires
        p < h.nodes@.len(),
    ensures
        r == has_child(h@, p as int),
{
    let mut c: usize = 0;
    while c < p
        invariant
            c <= p < h@.len(),
            h@.len() == h.nodes@.len(),
            forall|c2: int, k: int|
                0 <= c2 < c && 0 <= k < h@[c2].parents.len() ==> #[trigger] h@[c2].parents[k]
                    != p,
        decreases p - c,
    {
        proof {
            assert(h@[c as int] == h.nodes@[c as int]@);
        }
        let node = &h.nodes[c];
        let mut k: usize = 0;
        while k < node.parents.len()
            invariant
                c < p < h@.len(),
                h@.len() == h.nodes@.len(),
                node == h.nodes@[c as int],
                h@[c as int] == h.nodes@[c as int]@,
                k <= node.parents@.len(),
                forall|k2: int| 0 <= k2 < k ==> #[trigger] h@[c as int].parents[k2] != p,
            decreases node.parents.len() - k,
        {
            proof {
                assert(h@[c as int].parents[k as int] == node.parents@[k as int] as int);
            }
            if node.parents[k] == p {
                return true;
            }
            k = k + 1;
        }
        proof {
            assert(h@[c as int].parents.len() == node.parents@.len());
        }
        c = c + 1;
    }
    proof {
        assert(!has_child(h@, p as int)) by {
            if has_child(h@, p as int) {
                let (c0, k0) = choose|c0: int, k0: int|
                    0 <= c0 < p && 0 <= k0 < h@[c0].parents.len() && #[trigger] h@[c0].parents[k0]
                        == p;
                assert(h@[c0].parents[k0] != p);
            }
        }
    }
    false
}

/// Builds the ordered history of the repository for one walk: the live
/// snapshot, then every commit reachable from the branch tip, each with
/// its usable timestamp and its classified changes against its first
/// parent. The discovery step only gathers plain values through the
/// trusted wrappers; everything after it is exact by contract —
/// [`assemble_history`] pins the result to the discovered graph node by
/// node, under an order in which every parent stands strictly after its
/// child (most recent author time first among the ready ones), and
/// [`history_ok`] validates the shape the walk relies on. A graph that
/// cannot be so ordered is reported corrupt, never walked.
pub fn build_history(
    repo: &git2::Repository,
    tracked_dir: &Vec<u8>,
    skip_marker: Option<&str>,
) -> (r: Result<History, WalkError>)
    ensures
        match r {
            Ok(h) => h.well_formed(),
            Err(_) => true,
        },
{
    let tip = match git::head_commit_id(repo) {
        Ok(t) => t,
        Err(e) => {
            return Err(git_err(e));
        },
    };
    // Discovery: walk the commit graph from the tip, collecting for each
    // commit its parents (as indices into the discovery list), its author
    // time and whether its message carries the timestamp-skip marker.
    let mut ids: Vec<Vec<u8>> = Vec::new();
    let mut adj: Vec<Vec<usize>> = Vec::new();
    let mut times: Vec<Timestamp> = Vec::new();
    let mut skips: Vec<bool> = Vec::new();
    ids.push(tip);
    // The discovery loop terminates because every iteration settles one
    // discovered commit; the graph being finite is not visible to the
    // verifier, so an explicit fuel bound (which no real graph can
    // exhaust, since commits are deduplicated) carries the termination
    // argument.
    let mut fuel: usize = usize::MAX;
    while adj.len() < ids.len()
        invariant
            ids@.len() >= 1,
            adj@.len() == times@.len(),
            adj@.len() == skips@.len(),
            adj@.len() <= ids@.len(),
            forall|a: int, b: int|
                0 <= a < adj@.len() && 0 <= b < adj@[a].len() ==> #[trigger] adj@[a][b]
                    < ids@.len(),
        decreases fuel,
    {
        if fuel == 0 {
            return Err(WalkError::CorruptHistory);
        }
        fuel = fuel - 1;
        let c = adj.len();
        let raw_time = match git::commit_author_time(repo, &ids[c]) {
            Ok(t) => t,
            Err(e) => {
                return Err(git_err(e));
            },
        };
        let time = Timestamp { seconds: raw_time.0, offset_minutes: raw_time.1 };
        if !time.offset_valid() {
            return Err(WalkError::BadTimestamp);
        }
        let skip = match skip_marker {
            None => false,
            Some(marker) => match git::commit_message(repo, &ids[c]) {
                Ok(Some(msg)) => text_contains(msg.as_str(), marker),
                Ok(None) => false,
                Err(e) => {
                    return Err(git_err(e));
                },
            },
        };
        let parent_ids = match git::commit_parent_ids(repo, &ids[c]) {
            Ok(p) => p,
            Err(e) => {
                return Err(git_err(e));
            },
        };
        let mut row: Vec<usize> = Vec::new();
        let mut k: usize = 0;
        while k < parent_ids.len()
            invariant
                ids@.len() >= 1,
                adj@.len() < ids@.len(),
                adj@.len() == times@.len(),
                adj@.len() == skips@.len(),
                forall|b: int| 0 <= b < row@.len() ==> #[trigger] row@[b] < ids@.len(),
                forall|a: int, b: int|
                    0 <= a < adj@.len() && 0 <= b < adj@[a].len() ==> #[trigger] adj@[a][b]
                        < ids@.len(),
            decreases parent_ids.len() - k,
        {
            let idx = match find_id(&ids, &parent_ids[k]) {
                Some(j) => j,
                None => {
                    if ids.len() == usize::MAX {
                        // A graph this size cannot be indexed; treat it as
                        // unorderable.
                        return Err(WalkError::CorruptHistory);
                    }
                    ids.push(crate::ids::copy_bytes(&parent_ids[k]));
                    ids.len() - 1
                },
            };
            row.push(idx);
            k = k + 1;
        }
        adj.push(row);
        times.push(time);
        skips.push(skip);
    }
    let m = ids.len();
    if m >= usize::MAX - 1 {
        return Err(WalkError::CorruptHistory);
    }
    // Gather each commit's classified changes against its first parent,
    // in discovery order, then the live snapshot's against the tip.
    let mut all_changes: Vec<Vec<Change>> = Vec::new();
    let mut c: usize = 0;
    while c < m
        invariant
            m == ids@.len(),
            m == adj@.len(),
            all_changes@.len() == c <= m,
            forall|a: int, b: int|
                0 <= a < adj@.len() && 0 <= b < adj@[a].len() ==> #[trigger] adj@[a][b] < m,
        decreases m - c,
    {
        let first_parent: Option<&Vec<u8>> = if adj[c].len() > 0 {
            Some(&ids[adj[c][0]])
        } else {
            None
        };
        let diff = match git::commit_parent_diff(repo, &ids[c], first_parent) {
            Ok(d) => d,
            Err(e) => {
                return Err(git_err(e));
            },
        };
        let mut diff = diff;
        match git::diff_find_exact_renames(&mut diff) {
            Ok(u) => u,
            Err(e) => {
                return Err(git_err(e));
            },
        };
        all_changes.push(collect_changes(&diff, tracked_dir));
        c = c + 1;
    }
    let live_diff = match git::workdir_diff(repo, &ids[0]) {
        Ok(d) => d,
        Err(e) => {
            return Err(git_err(e));
        },
    };
    let mut live_diff = live_diff;
    match git::diff_find_exact_renames(&mut live_diff) {
        Ok(u) => u,
        Err(e) => {
            return Err(git_err(e));
        },
    };
    let live_changes = collect_changes(&live_diff, tracked_dir);
    // Ordering and assembly: exact by contract, so the history handed to
    // the walk is pinned to the discovered graph.
    proof {
        assert forall|c2: int, k: int|
            0 <= c2 < adj_view(adj@).len() && 0 <= k < adj_view(adj@)[c2].len() implies 0
            <= #[trigger] adj_view(adj@)[c2][k] < adj_view(adj@).len() by {
            assert(adj_view(adj@)[c2][k] == adj@[c2]@[k] as int);
        }
    }
    let history = match assemble_history(&adj, &times, &skips, all_changes, live_changes) {
        Ok(h) => h,
        Err(e) => {
            return Err(e);
        },
    };
    if !history_ok(&history) {
        return Err(WalkError::CorruptHistory);
    }
    Ok(history)
}

/// Derives provenance records for the seeded filenames from the repository
/// enclosing `dir`: discovers the repository, builds and validates the
/// ordered history, and runs the verified walk. The records come back one
/// per seeded filename, in seed order — a file absent from the seed gets
/// no record at all. The incremental variant is this same function on a
/// smaller seed: the full history is still walked, since an old rename may
/// resolve to any file of interest.
pub fn revwalk_update_store(
    dir: &str,
    tracked_dir: &Vec<u8>,
    skip_marker: Option<&str>,
    seed: &Vec<Vec<u8>>,
) -> (r: Result<Vec<ProvenanceRecord>, WalkError>)
    requires
        distinct_names(seed@),
    ensures
        match r {
            Ok(records) => records@.len() == seed@.len() && exists|h: History|
                #[trigger] h.well_formed() && records_view(records@) == walk_records(h@, seed@),
            Err(_) => true,
        },
{
    let repo = match git::repo_discover(dir) {
        Ok(r) => r,
        Err(e) => {
            return Err(WalkError::Discovery(git::git_error_message(&e)));
        },
    };
    let history = match build_history(&repo, tracked_dir, skip_marker) {
        Ok(h) => h,
        Err(e) => {
            return Err(e);
        },
    };
    let records = run_walk(&history, seed);
    proof {
        assert(history.well_formed() && records_view(records@) == walk_records(history@, seed@));
    }
    Ok(records)
}

} // verus!
