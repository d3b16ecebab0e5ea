//! The laws the walk obeys, each proved once for every history, seed and
//! timestamp.

use vstd::prelude::*;
use crate::change::ChangeModel;
use crate::history::RevNodeModel;
use crate::history::graph_ordered;
use crate::history::has_child;
use crate::lineage::spec_rename;
use crate::store::RecordModel;
use crate::store::spec_observe;
use crate::store::spec_resolve_times;
use crate::times::Timestamp;
use crate::walk::apply_changes;
use crate::walk::attach_parents;
use crate::walk::initial_state;
use crate::walk::walk_records;
use crate::walk::walk_upto;

verus! {

/// A revision without a usable timestamp — the live snapshot, or a commit
/// carrying the timestamp-skip marker — contributes nothing to any record,
/// whatever its changes: its deltas steer the lineage only.
pub proof fn lemma_no_timestamp_no_observation(
    frozen: Map<Seq<u8>, int>,
    derived: Map<Seq<u8>, int>,
    records: Seq<RecordModel>,
    changes: Seq<ChangeModel>,
)
    ensures
        apply_changes(frozen, derived, records, None, changes).1 == records,
    decreases changes.len(),
{
    if changes.len() == 0 {
    } else {
        lemma_no_timestamp_no_observation(frozen, derived, records, changes.drop_last());
    }
}

/// A file whose record no revision ever observed — one present only in the
/// working tree, never committed — resolves to the current wall-clock time
/// as its creation, with no update time.
pub proof fn lemma_unpublished_fallback(now: Timestamp)
    ensures
        spec_resolve_times(None, None, RecordModel::fresh(), now) == (
            now,
            Option::<Timestamp>::None,
        ),
{
}

/// A file observed exactly once — introduced in one commit and never
/// touched again — resolves to that commit's time as its creation, and its
/// update time is suppressed: a single-commit file has no update distinct
/// from its creation.
pub proof fn lemma_single_commit_suppression(t: Timestamp, id: Seq<u8>, now: Timestamp)
    ensures
        spec_resolve_times(None, None, spec_observe(RecordModel::fresh(), t, id), now) == (
            t,
            Option::<Timestamp>::None,
        ),
{
}

/// A file introduced at `t1` and modified at the later `t2` (the walk sees
/// the modification first) resolves to `t1` as its creation and `t2` as
/// its update, provided the two contents differ.
pub proof fn lemma_created_then_updated(
    t1: Timestamp,
    id1: Seq<u8>,
    t2: Timestamp,
    id2: Seq<u8>,
    now: Timestamp,
)
    requires
        t1.seconds < t2.seconds,
        id1 != id2,
    ensures
        spec_resolve_times(
            None,
            None,
            spec_observe(spec_observe(RecordModel::fresh(), t2, id2), t1, id1),
            now,
        ) == (t1, Some(t2)),
{
}

/// A rename leaves the renamed file resolvable under its older name, to
/// the same current identity the newer name resolved to — so a file
/// created under one name and renamed later still finds its creation
/// commit.
pub proof fn lemma_rename_resolves_old_name(
    m: Map<Seq<u8>, int>,
    old_name: Seq<u8>,
    new_name: Seq<u8>,
)
    requires
        m.contains_key(new_name),
    ensures
        spec_rename(m, old_name, new_name).contains_key(old_name),
        spec_rename(m, old_name, new_name)[old_name] == m[new_name],
{
}

/// A rename with no content change: the walk sees the rename at `t2`
/// first, then the creating addition at the earlier `t1`, both with the
/// same content. The creation resolves to `t1` — the commit that created
/// the file, not the one that renamed it — and the update time is
/// suppressed, the content never having changed.
pub proof fn lemma_rename_roundtrip_times(t1: Timestamp, t2: Timestamp, id: Seq<u8>, now: Timestamp)
    requires
        t1.seconds < t2.seconds,
    ensures
        spec_resolve_times(
            None,
            None,
            spec_observe(spec_observe(RecordModel::fresh(), t2, id), t1, id),
            now,
        ) == (t1, Option::<Timestamp>::None),
{
}

/// The walk is a function of the history and the seed alone: two walks
/// over an unchanged repository yield identical provenance.
pub proof fn lemma_walk_deterministic(
    h: Seq<RevNodeModel>,
    seed: Seq<Vec<u8>>,
    r1: Seq<RecordModel>,
    r2: Seq<RecordModel>,
)
    requires
        r1 == walk_records(h, seed),
        r2 == walk_records(h, seed),
    ensures
        r1 == r2,
{
}

proof fn lemma_apply_changes_records_len(
    frozen: Map<Seq<u8>, int>,
    derived: Map<Seq<u8>, int>,
    records: Seq<RecordModel>,
    ts: Option<Timestamp>,
    changes: Seq<ChangeModel>,
)
    ensures
        apply_changes(frozen, derived, records, ts, changes).1.len() == records.len(),
    decreases changes.len(),
{
    if changes.len() == 0 {
    } else {
        lemma_apply_changes_records_len(frozen, derived, records, ts, changes.drop_last());
    }
}

proof fn lemma_walk_upto_records_len(h: Seq<RevNodeModel>, seed: Seq<Vec<u8>>, j: int)
    ensures
        walk_upto(h, seed, j).records.len() == seed.len(),
    decreases j,
{
    if j <= 0 {
    } else {
        lemma_walk_upto_records_len(h, seed, j - 1);
        let st = walk_upto(h, seed, j - 1);
        if 0 <= j - 1 < h.len() && 0 <= j - 1 < st.lineages.len() {
            match st.lineages[j - 1] {
                None => {},
                Some(frozen) => {
                    lemma_apply_changes_records_len(
                        frozen,
                        frozen,
                        st.records,
                        h[j - 1].timestamp,
                        h[j - 1].changes,
                    );
                },
            }
        }
    }
}

/// Record keys are fixed at seeding: the walk yields exactly one record
/// per seeded file, so a file absent from the seed — deleted from the
/// tracked directory — has no record at all, stale or otherwise.
pub proof fn lemma_records_keyed_by_seed(h: Seq<RevNodeModel>, seed: Seq<Vec<u8>>)
    ensures
        walk_records(h, seed).len() == seed.len(),
{
    lemma_walk_upto_records_len(h, seed, h.len() as int);
}

proof fn lemma_attach_len(
    lineages: Seq<Option<Map<Seq<u8>, int>>>,
    parents: Seq<int>,
    derived: Map<Seq<u8>, int>,
)
    ensures
        attach_parents(lineages, parents, derived).len() == lineages.len(),
    decreases parents.len(),
{
    if parents.len() == 0 {
    } else {
        lemma_attach_len(lineages, parents.drop_last(), derived);
    }
}

proof fn lemma_attach_preserves_some(
    lineages: Seq<Option<Map<Seq<u8>, int>>>,
    parents: Seq<int>,
    derived: Map<Seq<u8>, int>,
    p: int,
)
    requires
        0 <= p < lineages.len(),
        lineages[p] is Some,
    ensures
        attach_parents(lineages, parents, derived)[p] == lineages[p],
    decreases parents.len(),
{
    lemma_attach_len(lineages, parents, derived);
    if parents.len() == 0 {
    } else {
        lemma_attach_preserves_some(lineages, parents.drop_last(), derived, p);
        lemma_attach_len(lineages, parents.drop_last(), derived);
    }
}

proof fn lemma_attach_untouched(
    lineages: Seq<Option<Map<Seq<u8>, int>>>,
    parents: Seq<int>,
    derived: Map<Seq<u8>, int>,
    p: int,
)
    requires
        forall|k: int| 0 <= k < parents.len() ==> parents[k] != p,
    ensures
        0 <= p < lineages.len() ==> attach_parents(lineages, parents, derived)[p] == lineages[p],
    decreases parents.len(),
{
    if parents.len() == 0 {
    } else {
        assert(forall|k: int|
            0 <= k < parents.drop_last().len() ==> parents.drop_last()[k] == parents[k]);
        lemma_attach_untouched(lineages, parents.drop_last(), derived, p);
        lemma_attach_len(lineages, parents.drop_last(), derived);
        assert(parents[parents.len() - 1] != p);
    }
}

proof fn lemma_attach_sets(
    lineages: Seq<Option<Map<Seq<u8>, int>>>,
    parents: Seq<int>,
    derived: Map<Seq<u8>, int>,
    p: int,
)
    requires
        0 <= p < lineages.len(),
        lineages[p] is None,
        parents.contains(p),
    ensures
        attach_parents(lineages, parents, derived)[p] == Some(derived),
    decreases parents.len(),
{
    lemma_attach_len(lineages, parents.drop_last(), derived);
    if parents.drop_last().contains(p) {
        lemma_attach_sets(lineages, parents.drop_last(), derived, p);
    } else {
        let k = choose|k: int| 0 <= k < parents.len() && parents[k] == p;
        if k < parents.len() - 1 {
            assert(parents.drop_last()[k] == p);
            assert(parents.drop_last().contains(p));
        }
        assert(parents.last() == p);
        assert(forall|k2: int|
            0 <= k2 < parents.drop_last().len() ==> parents.drop_last()[k2] != p);
        lemma_attach_untouched(lineages, parents.drop_last(), derived, p);
    }
}

proof fn lemma_walk_upto_lineages_len(h: Seq<RevNodeModel>, seed: Seq<Vec<u8>>, j: int)
    ensures
        walk_upto(h, seed, j).lineages.len() == h.len(),
    decreases j,
{
    if j <= 0 {
    } else {
        lemma_walk_upto_lineages_len(h, seed, j - 1);
        let st = walk_upto(h, seed, j - 1);
        if 0 <= j - 1 < h.len() && 0 <= j - 1 < st.lineages.len() {
            match st.lineages[j - 1] {
                None => {},
                Some(frozen) => {
                    lemma_attach_len(
                        st.lineages,
                        h[j - 1].parents,
                        apply_changes(
                            frozen,
                            frozen,
                            st.records,
                            h[j - 1].timestamp,
                            h[j - 1].changes,
                        ).0,
                    );
                },
            }
        }
    }
}

/// A lineage, once attached to a revision, never changes: whichever
/// revision reaches a shared parent first in traversal order is the one
/// whose view that parent keeps.
pub proof fn lemma_lineage_stable(
    h: Seq<RevNodeModel>,
    seed: Seq<Vec<u8>>,
    j1: int,
    j2: int,
    p: int,
)
    requires
        0 <= j1 <= j2,
        0 <= p < h.len(),
        walk_upto(h, seed, j1).lineages[p] is Some,
    ensures
        walk_upto(h, seed, j2).lineages[p] == walk_upto(h, seed, j1).lineages[p],
    decreases j2 - j1,
{
    lemma_walk_upto_lineages_len(h, seed, j1);
    if j2 == j1 {
    } else {
        lemma_lineage_stable(h, seed, j1, j2 - 1, p);
        lemma_walk_upto_lineages_len(h, seed, j2 - 1);
        let st = walk_upto(h, seed, j2 - 1);
        if 0 <= j2 - 1 < h.len() && 0 <= j2 - 1 < st.lineages.len() {
            match st.lineages[j2 - 1] {
                None => {},
                Some(frozen) => {
                    lemma_attach_preserves_some(
                        st.lineages,
                        h[j2 - 1].parents,
                        apply_changes(
                            frozen,
                            frozen,
                            st.records,
                            h[j2 - 1].timestamp,
                            h[j2 - 1].changes,
                        ).0,
                        p,
                    );
                },
            }
        }
    }
}

/// Until some child of `p` has been processed, `p` has no lineage: only a
/// revision that lists `p` among its parents can hand it one.
pub proof fn lemma_no_child_no_lineage(h: Seq<RevNodeModel>, seed: Seq<Vec<u8>>, p: int, j: int)
    requires
        1 <= p < h.len(),
        0 <= j <= h.len(),
        forall|c: int| 0 <= c < j ==> !(#[trigger] h[c].parents.contains(p)),
    ensures
        walk_upto(h, seed, j).lineages[p] is None,
    decreases j,
{
    lemma_walk_upto_lineages_len(h, seed, j);
    if j == 0 {
        assert(initial_state(h, seed).lineages[p] is None);
    } else {
        lemma_no_child_no_lineage(h, seed, p, j - 1);
        lemma_walk_upto_lineages_len(h, seed, j - 1);
        let st = walk_upto(h, seed, j - 1);
        if 0 <= j - 1 < h.len() && 0 <= j - 1 < st.lineages.len() {
            match st.lineages[j - 1] {
                None => {},
                Some(frozen) => {
                    assert(!h[j - 1].parents.contains(p));
                    assert(forall|k: int|
                        0 <= k < h[j - 1].parents.len() ==> #[trigger] h[j - 1].parents[k] != p);
                    lemma_attach_untouched(
                        st.lineages,
                        h[j - 1].parents,
                        apply_changes(
                            frozen,
                            frozen,
                            st.records,
                            h[j - 1].timestamp,
                            h[j - 1].changes,
                        ).0,
                        p,
                    );
                },
            }
        }
    }
}

/// The derived lineage a revision hands to its parents: its own frozen
/// lineage with its deltas' rename and addition effects folded in.
pub open spec fn derived_lineage_of(h: Seq<RevNodeModel>, seed: Seq<Vec<u8>>, c: int) -> Map<
    Seq<u8>,
    int,
> {
    match walk_upto(h, seed, c).lineages[c] {
        Some(frozen) => apply_changes(
            frozen,
            frozen,
            walk_upto(h, seed, c).records,
            h[c].timestamp,
            h[c].changes,
        ).0,
        None => Map::empty(),
    }
}

/// Under the traversal order, every revision already has a frozen lineage
/// by the time it is processed: the live snapshot is seeded with the
/// identity lineage, and every other revision received one from an
/// earlier-processed child.
pub proof fn lemma_lineage_present(h: Seq<RevNodeModel>, seed: Seq<Vec<u8>>, i: int)
    requires
        graph_ordered(h),
        0 <= i < h.len(),
    ensures
        walk_upto(h, seed, i).lineages[i] is Some,
    decreases i,
{
    lemma_walk_upto_lineages_len(h, seed, i);
    if i == 0 {
        assert(initial_state(h, seed).lineages[0] is Some);
    } else {
        assert(has_child(h, i));
        let (c, k) = choose|c: int, k: int|
            0 <= c < i && 0 <= k < h[c].parents.len() && #[trigger] h[c].parents[k] == i;
        lemma_lineage_present(h, seed, c);
        lemma_walk_upto_lineages_len(h, seed, c);
        let st = walk_upto(h, seed, c);
        let frozen = st.lineages[c]->Some_0;
        let derived = apply_changes(frozen, frozen, st.records, h[c].timestamp, h[c].changes).0;
        if st.lineages[i] is Some {
            lemma_lineage_stable(h, seed, c, i, i);
        } else {
            assert(h[c].parents[k] == i);
            assert(h[c].parents.contains(i));
            lemma_attach_sets(st.lineages, h[c].parents, derived, i);
            assert(walk_upto(h, seed, c + 1).lineages[i] is Some);
            lemma_lineage_stable(h, seed, c + 1, i, i);
        }
    }
}

/// Merge determinism, the first-visit-wins rule: where revision `c` lists
/// `p` among its parents and `p` still has no lineage when `c` is
/// processed, `p` keeps `c`'s derived lineage from then on — later
/// children of `p` cannot displace it, so for a merge whose parents were
/// renamed differently, the view of the first-visited side prevails,
/// deterministically.
pub proof fn lemma_first_visit_wins(
    h: Seq<RevNodeModel>,
    seed: Seq<Vec<u8>>,
    c: int,
    p: int,
    j: int,
)
    requires
        0 <= c < h.len(),
        c < j <= h.len(),
        0 <= p < h.len(),
        h[c].parents.contains(p),
        walk_upto(h, seed, c).lineages[c] is Some,
        walk_upto(h, seed, c).lineages[p] is None,
    ensures
        walk_upto(h, seed, j).lineages[p] == Some(derived_lineage_of(h, seed, c)),
{
    lemma_walk_upto_lineages_len(h, seed, c);
    let st = walk_upto(h, seed, c);
    let frozen = st.lineages[c]->Some_0;
    let derived = apply_changes(frozen, frozen, st.records, h[c].timestamp, h[c].changes).0;
    lemma_attach_sets(st.lineages, h[c].parents, derived, p);
    assert(walk_upto(h, seed, c + 1).lineages[p] == Some(derived));
    lemma_lineage_stable(h, seed, c + 1, j, p);
}

} // verus!
