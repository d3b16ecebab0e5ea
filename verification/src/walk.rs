//! The walk itself: revisions are processed newest-reachable-first (index
//! order of a well-formed [`crate::history::History`]), feeding each
//! revision's classified changes through its frozen lineage into the
//! provenance records, then handing the revision's derived lineage to each
//! parent that has none yet — first visit wins, a deliberate deterministic
//! approximation for merge commits.
//!
//! The mathematical meaning of the walk is the fold [`walk_records`]; the
//! executable walk is proved to compute exactly that fold, for every
//! history and seed.

use vstd::prelude::*;
use crate::change::Change;
use crate::change::ChangeKind;
use crate::change::ChangeModel;
use crate::history::History;
use crate::history::RevNodeModel;
use crate::lineage::Lineage;
use crate::lineage::distinct_names;
use crate::lineage::seed_map;
use crate::lineage::spec_addition;
use crate::lineage::spec_rename;
use crate::store::ProvenanceRecord;
use crate::store::RecordModel;
use crate::store::spec_observe;
use crate::times::Timestamp;

verus! {

/// The walk's state: per revision the lineage frozen for it (absent until
/// some child hands it one), and per seeded file its provenance record.
pub ghost struct WalkState {
    pub lineages: Seq<Option<Map<Seq<u8>, int>>>,
    pub records: Seq<RecordModel>,
}

pub open spec fn records_view(s: Seq<ProvenanceRecord>) -> Seq<RecordModel> {
    s.map_values(|p: ProvenanceRecord| p@)
}

pub open spec fn changes_view(s: Seq<Change>) -> Seq<ChangeModel> {
    s.map_values(|c: Change| c@)
}

pub open spec fn parents_view(s: Seq<usize>) -> Seq<int> {
    s.map_values(|p: usize| p as int)
}

pub open spec fn lineages_view(s: Seq<Option<Lineage>>) -> Seq<Option<Map<Seq<u8>, int>>> {
    s.map_values(
        |o: Option<Lineage>|
            match o {
                Some(l) => Some(l@),
                None => None,
            },
    )
}

pub open spec fn lineages_wf(s: Seq<Option<Lineage>>) -> bool {
    forall|i: int|
        0 <= i < s.len() ==> match #[trigger] s[i] {
            Some(l) => l.wf(),
            None => true,
        }
}

/// What one classified change does to the walk of one revision: the new
/// name is resolved through the revision's frozen lineage, and where it
/// resolves to a seeded file, the revision carries a usable timestamp and
/// the change is not `Unmodified`, that file's record observes the change;
/// then a rename or an addition mutates the derived lineage.
pub open spec fn step_change(
    frozen: Map<Seq<u8>, int>,
    derived: Map<Seq<u8>, int>,
    records: Seq<RecordModel>,
    ts: Option<Timestamp>,
    c: ChangeModel,
) -> (Map<Seq<u8>, int>, Seq<RecordModel>) {
    let records2 = match ts {
        Some(t) => if frozen.contains_key(c.new_name) && 0 <= frozen[c.new_name] < records.len()
            && c.kind != ChangeKind::Unmodified {
            records.update(
                frozen[c.new_name],
                spec_observe(records[frozen[c.new_name]], t, c.content_id),
            )
        } else {
            records
        },
        None => records,
    };
    let derived2 = match c.kind {
        ChangeKind::Renamed => match c.old_name {
            Some(o) => spec_rename(derived, o, c.new_name),
            None => derived,
        },
        ChangeKind::Added => spec_addition(derived, c.new_name),
        ChangeKind::Modified => derived,
        ChangeKind::Unmodified => derived,
    };
    (derived2, records2)
}

/// One revision's changes, applied in order.
pub open spec fn apply_changes(
    frozen: Map<Seq<u8>, int>,
    derived: Map<Seq<u8>, int>,
    records: Seq<RecordModel>,
    ts: Option<Timestamp>,
    changes: Seq<ChangeModel>,
) -> (Map<Seq<u8>, int>, Seq<RecordModel>)
    decreases changes.len(),
{
    if changes.len() == 0 {
        (derived, records)
    } else {
        let prev = apply_changes(frozen, derived, records, ts, changes.drop_last());
        step_change(frozen, prev.0, prev.1, ts, changes.last())
    }
}

/// The derived lineage handed to each parent that has none yet.
pub open spec fn attach_parents(
    lineages: Seq<Option<Map<Seq<u8>, int>>>,
    parents: Seq<int>,
    derived: Map<Seq<u8>, int>,
) -> Seq<Option<Map<Seq<u8>, int>>>
    decreases parents.len(),
{
    if parents.len() == 0 {
        lineages
    } else {
        let prev = attach_parents(lineages, parents.drop_last(), derived);
        let p = parents.last();
        if 0 <= p < prev.len() && prev[p] is None {
            prev.update(p, Some(derived))
        } else {
            prev
        }
    }
}

/// One revision's processing: nothing happens where the revision never
/// received a lineage (impossible under a well-formed history); otherwise
/// its changes are applied against the frozen lineage and the derived
/// lineage goes to its parents.
pub open spec fn step_revision(h: Seq<RevNodeModel>, st: WalkState, i: int) -> WalkState {
    if 0 <= i < h.len() && 0 <= i < st.lineages.len() {
        match st.lineages[i] {
            None => st,
            Some(frozen) => {
                let dr = apply_changes(frozen, frozen, st.records, h[i].timestamp, h[i].changes);
                WalkState { lineages: attach_parents(st.lineages, h[i].parents, dr.0), records: dr.1 }
            },
        }
    } else {
        st
    }
}

/// The seeded state: the live snapshot holds the identity lineage over the
/// seed, every other revision has none yet, and every record is fresh.
/// Record keys are fixed here: the walk never adds or drops one.
pub open spec fn initial_state(h: Seq<RevNodeModel>, seed: Seq<Vec<u8>>) -> WalkState {
    WalkState {
        lineages: Seq::new(
            h.len(),
            |i: int|
                if i == 0 {
                    Some(seed_map(seed))
                } else {
                    None
                },
        ),
        records: Seq::new(seed.len(), |i: int| RecordModel::fresh()),
    }
}

/// The state after the first `j` revisions.
pub open spec fn walk_upto(h: Seq<RevNodeModel>, seed: Seq<Vec<u8>>, j: int) -> WalkState
    decreases j,
{
    if j <= 0 {
        initial_state(h, seed)
    } else {
        step_revision(h, walk_upto(h, seed, j - 1), j - 1)
    }
}

/// The provenance records after the whole walk — the mathematical meaning
/// of [`run_walk`], one record per seeded file, in seed order.
pub open spec fn walk_records(h: Seq<RevNodeModel>, seed: Seq<Vec<u8>>) -> Seq<RecordModel> {
    walk_upto(h, seed, h.len() as int).records
}

/// Applies one revision's classified changes, in order, against the frozen
/// lineage `frozen`, mutating the derived lineage and the records.
fn apply_revision_changes(
    frozen: &Lineage,
    derived: &mut Lineage,
    records: &mut Vec<ProvenanceRecord>,
    ts: Option<Timestamp>,
    changes: &Vec<Change>,
)
    requires
        frozen.wf(),
        old(derived).wf(),
    ensures
        final(derived).wf(),
        final(records)@.len() == old(records)@.len(),
        final(derived)@ == apply_changes(
            frozen@,
            old(derived)@,
            records_view(old(records)@),
            ts,
            changes_view(changes@),
        ).0,
        records_view(final(records)@) == apply_changes(
            frozen@,
            old(derived)@,
            records_view(old(records)@),
            ts,
            changes_view(changes@),
        ).1,
{
    let ghost d0 = derived@;
    let ghost r0 = records_view(records@);
    let mut j: usize = 0;
    while j < changes.len()
        invariant
            j <= changes@.len(),
            frozen.wf(),
            derived.wf(),
            records@.len() == old(records)@.len(),
            derived@ == apply_changes(frozen@, d0, r0, ts, changes_view(changes@).take(j as int)).0,
            records_view(records@) == apply_changes(
                frozen@,
                d0,
                r0,
                ts,
                changes_view(changes@).take(j as int),
            ).1,
        decreases changes.len() - j,
    {
        proof {
            assert(changes_view(changes@).take(j + 1 as int).drop_last() =~= changes_view(
                changes@,
            ).take(j as int));
            assert(changes_view(changes@).take(j + 1 as int).last() == changes@[j as int]@);
        }
        let c = &changes[j];
        let resolved = frozen.resolve(&c.new_name);
        match (resolved, ts) {
            (Some(idx), Some(t)) => {
                if idx < records.len() && !(c.kind == ChangeKind::Unmodified) {
                    let ghost pre = records@;
                    let next = records[idx].observed(t, &c.content_id);
                    records[idx] = next;
                    proof {
                        assert(records_view(records@) =~= records_view(pre).update(
                            idx as int,
                            spec_observe(records_view(pre)[idx as int], t, c@.content_id),
                        ));
                    }
                }
            },
            _ => {},
        }
        match c.kind {
            ChangeKind::Renamed => {
                match &c.old_name {
                    Some(o) => derived.record_rename(o, &c.new_name),
                    None => {},
                }
            },
            ChangeKind::Added => {
                derived.record_addition(&c.new_name);
            },
            ChangeKind::Modified => {},
            ChangeKind::Unmodified => {},
        }
        j = j + 1;
    }
    proof {
        assert(changes_view(changes@).take(changes@.len() as int) =~= changes_view(changes@));
    }
}

/// Hands the derived lineage to each listed parent that has none yet.
fn attach_to_parents(lineages: &mut Vec<Option<Lineage>>, parents: &Vec<usize>, derived: &Lineage)
    requires
        derived.wf(),
        lineages_wf(old(lineages)@),
    ensures
        lineages_wf(final(lineages)@),
        final(lineages)@.len() == old(lineages)@.len(),
        lineages_view(final(lineages)@) == attach_parents(
            lineages_view(old(lineages)@),
            parents_view(parents@),
            derived@,
        ),
{
    let ghost l0 = lineages_view(lineages@);
    let mut k: usize = 0;
    while k < parents.len()
        invariant
            k <= parents@.len(),
            derived.wf(),
            lineages_wf(lineages@),
            lineages@.len() == old(lineages)@.len(),
            lineages_view(lineages@) == attach_parents(
                l0,
                parents_view(parents@).take(k as int),
                derived@,
            ),
        decreases parents.len() - k,
    {
        proof {
            assert(parents_view(parents@).take(k + 1 as int).drop_last() =~= parents_view(
                parents@,
            ).take(k as int));
            assert(parents_view(parents@).take(k + 1 as int).last() == parents@[k as int] as int);
        }
        let p = parents[k];
        if p < lineages.len() {
            let attach_now = match &lineages[p] {
                None => true,
                Some(_) => false,
            };
            if attach_now {
                let ghost pre = lineages@;
                let dup = derived.duplicate();
                lineages[p] = Some(dup);
                proof {
                    assert(lineages_view(lineages@) =~= lineages_view(pre).update(
                        p as int,
                        Some(derived@),
                    ));
                    assert forall|a: int| 0 <= a < lineages@.len() implies match #[trigger] lineages@[a] {
                        Some(l) => l.wf(),
                        None => true,
                    } by {
                        if a != p {
                            assert(lineages@[a] == pre[a]);
                        }
                    }
                }
            }
        }
        k = k + 1;
    }
    proof {
        assert(parents_view(parents@).take(parents@.len() as int) =~= parents_view(parents@));
    }
}

/// Runs the full walk over an ordered history: seeds the identity lineage
/// and fresh records, processes every revision in newest-first order, and
/// returns one record per seeded file, in seed order. The result is
/// exactly the fold [`walk_records`] — a function of the history and the
/// seed alone, so two walks over an unchanged repository agree.
pub fn run_walk(h: &History, seed: &Vec<Vec<u8>>) -> (r: Vec<ProvenanceRecord>)
    requires
        distinct_names(seed@),
    ensures
        r@.len() == seed@.len(),
        records_view(r@) == walk_records(h@, seed@),
{
    let n = h.nodes.len();
    let mut lineages: Vec<Option<Lineage>> = Vec::new();
    if n > 0 {
        lineages.push(Some(Lineage::identity_for(seed)));
    }
    while lineages.len() < n
        invariant
            n == h.nodes@.len(),
            n > 0 ==> 1 <= lineages@.len() <= n && (match lineages@[0] {
                Some(l) => l.wf() && l@ == seed_map(seed@),
                None => false,
            }),
            n == 0 ==> lineages@.len() == 0,
            forall|a: int| 1 <= a < lineages@.len() ==> lineages@[a] is None,
        decreases n - lineages.len(),
    {
        lineages.push(None);
    }
    let mut records: Vec<ProvenanceRecord> = Vec::new();
    while records.len() < seed.len()
        invariant
            records@.len() <= seed@.len(),
            forall|a: int| 0 <= a < records@.len() ==> records@[a]@ == RecordModel::fresh(),
        decreases seed.len() - records.len(),
    {
        records.push(ProvenanceRecord::fresh());
    }
    proof {
        assert(h@.len() == h.nodes@.len());
        assert(lineages_view(lineages@) =~= initial_state(h@, seed@).lineages);
        assert(records_view(records@) =~= initial_state(h@, seed@).records);
    }
    let mut i: usize = 0;
    while i < n
        invariant
            i <= n,
            n == h.nodes@.len(),
            n == h@.len(),
            distinct_names(seed@),
            records@.len() == seed@.len(),
            lineages@.len() == n,
            lineages_wf(lineages@),
            lineages_view(lineages@) == walk_upto(h@, seed@, i as int).lineages,
            records_view(records@) == walk_upto(h@, seed@, i as int).records,
        decreases n - i,
    {
        proof {
            assert(h@[i as int] == h.nodes@[i as int]@);
        }
        let frozen_opt = match &lineages[i] {
            None => None,
            Some(l) => Some(l.duplicate()),
        };
        match frozen_opt {
            None => {},
            Some(frozen) => {
                let mut derived = frozen.duplicate();
                let node = &h.nodes[i];
                apply_revision_changes(&frozen, &mut derived, &mut records, node.timestamp, &node.changes);
                attach_to_parents(&mut lineages, &node.parents, &derived);
                proof {
                    assert(changes_view(h.nodes@[i as int].changes@) == h@[i as int].changes);
                    assert(parents_view(h.nodes@[i as int].parents@) == h@[i as int].parents);
                }
            },
        }
        i = i + 1;
    }
    records
}

} // verus!
