//! Scenario tests for the walk over hand-built histories: each one pins a
//! behaviour of the derivation on concrete revisions, timestamps and
//! contents.

use pointwise_gen::change::Change;
use pointwise_gen::change::ChangeKind;
use pointwise_gen::history::History;
use pointwise_gen::history::RevNode;
use pointwise_gen::ids::ObjectId;
use pointwise_gen::times::Timestamp;
use pointwise_gen::walk::run_walk;

fn oid(bytes: &[u8]) -> ObjectId {
    ObjectId { bytes: bytes.to_vec() }
}

fn ts(seconds: i64) -> Timestamp {
    Timestamp { seconds, offset_minutes: 0 }
}

fn added(name: &[u8], content: &[u8]) -> Change {
    Change { kind: ChangeKind::Added, old_name: None, new_name: name.to_vec(), content_id: oid(content) }
}

fn modified(name: &[u8], content: &[u8]) -> Change {
    Change { kind: ChangeKind::Modified, old_name: None, new_name: name.to_vec(), content_id: oid(content) }
}

fn renamed(old: &[u8], new: &[u8], content: &[u8]) -> Change {
    Change {
        kind: ChangeKind::Renamed,
        old_name: Some(old.to_vec()),
        new_name: new.to_vec(),
        content_id: oid(content),
    }
}

fn node(parents: Vec<usize>, seconds: Option<i64>, changes: Vec<Change>) -> RevNode {
    RevNode { parents, timestamp: seconds.map(ts), changes }
}

fn seed(names: &[&[u8]]) -> Vec<Vec<u8>> {
    names.iter().map(|n| n.to_vec()).collect()
}

#[test]
fn assembly_orders_parents_after_children() {
    // Two discovered commits, the tip (index 0) with the root (index 1) as
    // its parent: the assembled history holds the live snapshot first, then
    // the tip, then the root, with parents renumbered.
    let adj: Vec<Vec<usize>> = vec![vec![1], vec![]];
    let times = vec![ts(2000), ts(1000)];
    let skips = vec![false, true];
    let changes = vec![
        vec![modified(b"2024-01-05-a.md", b"b2")],
        vec![added(b"2024-01-05-a.md", b"b1")],
    ];
    let h = pointwise_gen::ordering::assemble_history(&adj, &times, &skips, changes, vec![])
        .unwrap();
    assert_eq!(h.nodes.len(), 3);
    assert!(h.nodes[0].timestamp.is_none());
    assert_eq!(h.nodes[0].parents, vec![1]);
    assert!(h.nodes[0].changes.is_empty());
    assert_eq!(h.nodes[1].parents, vec![2]);
    assert_eq!(h.nodes[1].timestamp, Some(ts(2000)));
    assert_eq!(h.nodes[1].changes[0].kind, ChangeKind::Modified);
    assert_eq!(h.nodes[2].parents, Vec::<usize>::new());
    // The root carried the skip marker: its time is unusable.
    assert_eq!(h.nodes[2].timestamp, None);
    assert_eq!(h.nodes[2].changes[0].kind, ChangeKind::Added);
}

#[test]
fn assembly_rejects_unorderable_graph() {
    // A commit listing itself as a parent admits no order in which every
    // parent stands after its child.
    let adj: Vec<Vec<usize>> = vec![vec![0]];
    let r = pointwise_gen::ordering::assemble_history(
        &adj,
        &vec![ts(1000)],
        &vec![false],
        vec![vec![]],
        vec![],
    );
    assert!(matches!(r, Err(pointwise_gen::errors::WalkError::CorruptHistory)));
}

#[test]
fn untracked_file_created_now() {
    // A file present only in the working tree: the live snapshot shows it
    // as an addition, no commit ever carries it.
    let h = History {
        nodes: vec![
            node(vec![1], None, vec![added(b"2024-01-05-a.md", b"w1")]),
            node(vec![], Some(1000), vec![]),
        ],
    };
    let recs = run_walk(&h, &seed(&[b"2024-01-05-a.md"]));
    assert_eq!(recs.len(), 1);
    assert!(recs[0].created.is_none());
    assert!(recs[0].updated.is_none());
    let now = ts(777_000);
    let (publish, update) = recs[0].resolve_times(None, None, now);
    assert_eq!(publish, now);
    assert_eq!(update, None);
}

#[test]
fn single_commit_file_suppresses_update() {
    let h = History {
        nodes: vec![
            node(vec![1], None, vec![]),
            node(vec![], Some(1000), vec![added(b"2024-01-05-a.md", b"b1")]),
        ],
    };
    let recs = run_walk(&h, &seed(&[b"2024-01-05-a.md"]));
    let rec = &recs[0];
    assert_eq!(rec.created.as_ref().unwrap().time, ts(1000));
    let (publish, update) = rec.resolve_times(None, None, ts(9999));
    assert_eq!(publish, ts(1000));
    assert_eq!(update, None);
}

#[test]
fn modified_file_keeps_both_times() {
    let h = History {
        nodes: vec![
            node(vec![1], None, vec![]),
            node(vec![2], Some(2000), vec![modified(b"2024-01-05-a.md", b"b2")]),
            node(vec![], Some(1000), vec![added(b"2024-01-05-a.md", b"b1")]),
        ],
    };
    let recs = run_walk(&h, &seed(&[b"2024-01-05-a.md"]));
    let (publish, update) = recs[0].resolve_times(None, None, ts(9999));
    assert_eq!(publish, ts(1000));
    assert_eq!(update, Some(ts(2000)));
}

#[test]
fn renamed_file_resolves_creation() {
    // a.md created, later renamed to b.md with no content change: the
    // creation time is the creating commit's, not the renaming one's, and
    // the update time is suppressed.
    let h = History {
        nodes: vec![
            node(vec![1], None, vec![]),
            node(vec![2], Some(2000), vec![renamed(b"2024-01-05-a.md", b"2024-01-05-b.md", b"b1")]),
            node(vec![], Some(1000), vec![added(b"2024-01-05-a.md", b"b1")]),
        ],
    };
    let recs = run_walk(&h, &seed(&[b"2024-01-05-b.md"]));
    let (publish, update) = recs[0].resolve_times(None, None, ts(9999));
    assert_eq!(publish, ts(1000));
    assert_eq!(update, None);
}

#[test]
fn repeated_walks_agree() {
    let h = History {
        nodes: vec![
            node(vec![1], None, vec![]),
            node(vec![2], Some(2000), vec![modified(b"2024-01-05-a.md", b"b2")]),
            node(vec![], Some(1000), vec![added(b"2024-01-05-a.md", b"b1")]),
        ],
    };
    let s = seed(&[b"2024-01-05-a.md"]);
    let first = run_walk(&h, &s);
    let second = run_walk(&h, &s);
    assert_eq!(first, second);
}

#[test]
fn merge_parent_first_visit_wins() {
    // A merge whose two sides renamed the tracked file differently: the
    // first-visited side (the merge's first parent) is the one whose view
    // the shared ancestor keeps. Here the first parent renamed a.md to
    // b.md, so b.md's lineage reaches the creating commit; had the second
    // parent's view won, nothing would resolve and no creation would be
    // found.
    let h = History {
        nodes: vec![
            node(vec![1], None, vec![]),
            // The merge, diffed against its first parent: no change.
            node(vec![2, 3], Some(4000), vec![]),
            // First parent: renamed a.md to b.md (content unchanged).
            node(vec![4], Some(3000), vec![renamed(b"2024-01-05-a.md", b"2024-01-05-b.md", b"b1")]),
            // Second parent: renamed a.md to c.md instead.
            node(vec![4], Some(2000), vec![renamed(b"2024-01-05-a.md", b"2024-01-05-c.md", b"b1")]),
            // The shared ancestor that created a.md.
            node(vec![], Some(1000), vec![added(b"2024-01-05-a.md", b"b1")]),
        ],
    };
    let recs = run_walk(&h, &seed(&[b"2024-01-05-b.md"]));
    let rec = &recs[0];
    assert_eq!(rec.created.as_ref().unwrap().time, ts(1000));
    let (publish, update) = rec.resolve_times(None, None, ts(9999));
    assert_eq!(publish, ts(1000));
    assert_eq!(update, None);
}

#[test]
fn incremental_single_seed_matches_full() {
    // The same history walked with the full seed and with a single-file
    // seed yields the same record for that file.
    let h = History {
        nodes: vec![
            node(vec![1], None, vec![]),
            node(
                vec![2],
                Some(3000),
                vec![modified(b"2024-01-05-a.md", b"a2"), added(b"2024-01-06-b.md", b"b1")],
            ),
            node(vec![], Some(1000), vec![added(b"2024-01-05-a.md", b"a1")]),
        ],
    };
    let full = run_walk(&h, &seed(&[b"2024-01-05-a.md", b"2024-01-06-b.md"]));
    let only_a = run_walk(&h, &seed(&[b"2024-01-05-a.md"]));
    let only_b = run_walk(&h, &seed(&[b"2024-01-06-b.md"]));
    assert_eq!(only_a[0], full[0]);
    assert_eq!(only_b[0], full[1]);
}

#[test]
fn absent_seed_file_gets_no_record() {
    // A file deleted from the tracked directory is absent from the seed:
    // the walk yields exactly one record per seeded name, so the deleted
    // file has no entry at all, however much history mentions it.
    let h = History {
        nodes: vec![
            node(vec![1], None, vec![]),
            node(
                vec![2],
                Some(2000),
                vec![modified(b"2024-01-05-gone.md", b"g2")],
            ),
            node(
                vec![],
                Some(1000),
                vec![added(b"2024-01-05-gone.md", b"g1"), added(b"2024-01-05-kept.md", b"k1")],
            ),
        ],
    };
    let recs = run_walk(&h, &seed(&[b"2024-01-05-kept.md"]));
    assert_eq!(recs.len(), 1);
    assert_eq!(recs[0].created.as_ref().unwrap().time, ts(1000));
}

#[test]
fn force_overrides_bypass_walk() {
    let h = History {
        nodes: vec![
            node(vec![1], None, vec![]),
            node(vec![2], Some(2000), vec![modified(b"2024-01-05-a.md", b"b2")]),
            node(vec![], Some(1000), vec![added(b"2024-01-05-a.md", b"b1")]),
        ],
    };
    let recs = run_walk(&h, &seed(&[b"2024-01-05-a.md"]));
    let (publish, update) = recs[0].resolve_times(Some(ts(50)), Some(ts(60)), ts(9999));
    assert_eq!(publish, ts(50));
    assert_eq!(update, Some(ts(60)));
    let (publish2, update2) = recs[0].resolve_times(Some(ts(50)), None, ts(9999));
    assert_eq!(publish2, ts(50));
    assert_eq!(update2, Some(ts(2000)));
}

#[test]
fn commit_without_timestamp_contributes_none() {
    // A revision without a usable timestamp (here the most recent commit)
    // still steers the lineage but never observes: only the older commit's
    // time appears.
    let h = History {
        nodes: vec![
            node(vec![1], None, vec![]),
            node(vec![2], None, vec![renamed(b"2024-01-05-a.md", b"2024-01-05-b.md", b"b1")]),
            node(vec![], Some(1000), vec![added(b"2024-01-05-a.md", b"b1")]),
        ],
    };
    let recs = run_walk(&h, &seed(&[b"2024-01-05-b.md"]));
    let rec = &recs[0];
    assert_eq!(rec.created.as_ref().unwrap().time, ts(1000));
    assert_eq!(rec.updated.as_ref().unwrap().time, ts(1000));
}
