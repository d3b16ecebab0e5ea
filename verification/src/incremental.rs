//! Incremental equivalence: walking the full history with a single-file
//! seed yields, for that file, exactly the record the full-seed walk
//! yields. The incremental walk is therefore the same algorithm on a
//! smaller seed, and its output can be trusted file by file.
//!
//! The equivalence is proved by simulation: at every step, the
//! single-seed walk's lineages are the full walk's lineages restricted to
//! the entries that resolve to the chosen file. One history shape breaks
//! the simulation and is excluded by hypothesis ([`walk_safe_for`]): a
//! rename whose moved entry belongs to a different seeded file but whose
//! old name currently resolves to the chosen file — there the full walk
//! lets the other file's lineage displace the chosen file's entry, which a
//! single-seed walk cannot see.

use vstd::prelude::*;
use vstd::map::*;
use crate::change::ChangeKind;
use crate::change::ChangeModel;
use crate::history::RevNodeModel;
use crate::lineage::distinct_names;
use crate::lineage::lemma_seed_map_domain;
use crate::lineage::lemma_seed_map_lookup;
use crate::lineage::seed_map;
use crate::store::RecordModel;
use crate::times::Timestamp;
use crate::walk::WalkState;
use crate::walk::apply_changes;
use crate::walk::attach_parents;
use crate::walk::initial_state;
use crate::walk::step_change;
use crate::walk::step_revision;
use crate::walk::walk_records;
use crate::walk::walk_upto;

verus! {

/// The lineage entries that resolve to seed index `t`, renumbered to the
/// single-seed index 0.
pub open spec fn restrict_to(m: Map<Seq<u8>, int>, t: int) -> Map<Seq<u8>, int> {
    Map::new(|k: Seq<u8>| m.contains_key(k) && m[k] == t, |k: Seq<u8>| 0)
}

/// One change is safe for seed index `t` against the derived lineage it
/// meets: it is not a rename that moves another file's entry onto a name
/// currently resolving to `t`.
pub open spec fn change_safe(derived: Map<Seq<u8>, int>, c: ChangeModel, t: int) -> bool {
    (c.kind == ChangeKind::Renamed && c.old_name is Some && derived.contains_key(c.new_name)
        && derived[c.new_name] != t) ==> !(derived.contains_key(c.old_name->Some_0)
        && derived[c.old_name->Some_0] == t)
}

/// The derived lineage that the `j`-th change of revision `i` meets during
/// the full walk.
pub open spec fn prefix_derived(
    h: Seq<RevNodeModel>,
    seed: Seq<Vec<u8>>,
    i: int,
    j: int,
) -> Map<Seq<u8>, int> {
    match walk_upto(h, seed, i).lineages[i] {
        Some(frozen) => apply_changes(
            frozen,
            frozen,
            walk_upto(h, seed, i).records,
            h[i].timestamp,
            h[i].changes.take(j),
        ).0,
        None => Map::empty(),
    }
}

/// Every change of the full walk is safe for seed index `t`: no rename
/// ever moves another file's entry onto a name currently resolving to `t`.
pub open spec fn walk_safe_for(h: Seq<RevNodeModel>, seed: Seq<Vec<u8>>, t: int) -> bool {
    forall|i: int, j: int|
        0 <= i < h.len() && 0 <= j < h[i].changes.len() ==> change_safe(
            prefix_derived(h, seed, i, j),
            #[trigger] h[i].changes[j],
            t,
        )
}

/// The single-seed walk state mirrors the full walk state at seed index
/// `t`: lineages are attached at the same revisions and restricted to `t`,
/// and the single record is `t`'s record.
pub open spec fn states_match(st: WalkState, st2: WalkState, t: int) -> bool {
    &&& st2.lineages.len() == st.lineages.len()
    &&& forall|p: int|
        0 <= p < st.lineages.len() ==> match (st.lineages[p], #[trigger] st2.lineages[p]) {
            (None, None) => true,
            (Some(m), Some(m2)) => m2 == restrict_to(m, t),
            (None, Some(_)) => false,
            (Some(_), None) => false,
        }
    &&& st2.records.len() == 1
    &&& 0 <= t < st.records.len()
    &&& st2.records[0] == st.records[t]
}

proof fn lemma_step_change_sim(
    frozen: Map<Seq<u8>, int>,
    derived: Map<Seq<u8>, int>,
    records: Seq<RecordModel>,
    records2: Seq<RecordModel>,
    ts: Option<Timestamp>,
    c: ChangeModel,
    t: int,
)
    requires
        0 <= t < records.len(),
        records2.len() == 1,
        records2[0] == records[t],
        change_safe(derived, c, t),
    ensures
        step_change(restrict_to(frozen, t), restrict_to(derived, t), records2, ts, c).0
            == restrict_to(step_change(frozen, derived, records, ts, c).0, t),
        step_change(restrict_to(frozen, t), restrict_to(derived, t), records2, ts, c).1.len()
            == 1,
        step_change(restrict_to(frozen, t), restrict_to(derived, t), records2, ts, c).1[0]
            == step_change(frozen, derived, records, ts, c).1[t],
{
    let f2 = restrict_to(frozen, t);
    let d2 = restrict_to(derived, t);
    // Records: the single-seed walk observes exactly when the full walk
    // observes at index t, with the same observation.
    match ts {
        Some(_) => {
            if frozen.contains_key(c.new_name) && frozen[c.new_name] == t {
                assert(f2.contains_key(c.new_name) && f2[c.new_name] == 0);
            } else {
                assert(!f2.contains_key(c.new_name));
            }
        },
        None => {},
    }
    // Lineage: renames and additions restrict pointwise.
    let full = step_change(frozen, derived, records, ts, c).0;
    let inc = step_change(f2, d2, records2, ts, c).0;
    match c.kind {
        ChangeKind::Renamed => {
            match c.old_name {
                Some(o) => {
                    if derived.contains_key(c.new_name) {
                        if derived[c.new_name] == t {
                            assert(d2.contains_key(c.new_name) && d2[c.new_name] == 0);
                            assert(inc =~= restrict_to(full, t));
                        } else {
                            assert(!d2.contains_key(c.new_name));
                            assert(!(derived.contains_key(o) && derived[o] == t));
                            assert(inc =~= restrict_to(full, t));
                        }
                    } else {
                        assert(!d2.contains_key(c.new_name));
                        assert(inc =~= restrict_to(full, t));
                    }
                },
                None => {
                    assert(inc =~= restrict_to(full, t));
                },
            }
        },
        ChangeKind::Added => {
            assert(inc =~= restrict_to(full, t));
        },
        ChangeKind::Modified => {
            assert(inc =~= restrict_to(full, t));
        },
        ChangeKind::Unmodified => {
            assert(inc =~= restrict_to(full, t));
        },
    }
}

proof fn lemma_apply_changes_sim(
    frozen: Map<Seq<u8>, int>,
    derived: Map<Seq<u8>, int>,
    records: Seq<RecordModel>,
    records2: Seq<RecordModel>,
    ts: Option<Timestamp>,
    changes: Seq<ChangeModel>,
    t: int,
)
    requires
        0 <= t < records.len(),
        records2.len() == 1,
        records2[0] == records[t],
        forall|j: int|
            0 <= j < changes.len() ==> change_safe(
                apply_changes(frozen, derived, records, ts, changes.take(j)).0,
                #[trigger] changes[j],
                t,
            ),
    ensures
        apply_changes(restrict_to(frozen, t), restrict_to(derived, t), records2, ts, changes).0
            == restrict_to(apply_changes(frozen, derived, records, ts, changes).0, t),
        apply_changes(
            restrict_to(frozen, t),
            restrict_to(derived, t),
            records2,
            ts,
            changes,
        ).1.len() == 1,
        apply_changes(restrict_to(frozen, t), restrict_to(derived, t), records2, ts, changes).1[0]
            == apply_changes(frozen, derived, records, ts, changes).1[t],
        apply_changes(frozen, derived, records, ts, changes).1.len() == records.len(),
    decreases changes.len(),
{
    if changes.len() == 0 {
    } else {
        let front = changes.drop_last();
        assert forall|j: int| 0 <= j < front.len() implies change_safe(
            apply_changes(frozen, derived, records, ts, front.take(j)).0,
            #[trigger] front[j],
            t,
        ) by {
            assert(front.take(j) =~= changes.take(j));
            assert(front[j] == changes[j]);
        }
        lemma_apply_changes_sim(frozen, derived, records, records2, ts, front, t);
        let prev_full = apply_changes(frozen, derived, records, ts, front);
        let prev_inc = apply_changes(
            restrict_to(frozen, t),
            restrict_to(derived, t),
            records2,
            ts,
            front,
        );
        assert(changes.take(changes.len() - 1) =~= front);
        assert(change_safe(prev_full.0, changes.last(), t));
        lemma_step_change_sim(
            frozen,
            prev_full.0,
            prev_full.1,
            prev_inc.1,
            ts,
            changes.last(),
            t,
        );
    }
}

proof fn lemma_attach_sim(
    l: Seq<Option<Map<Seq<u8>, int>>>,
    l2: Seq<Option<Map<Seq<u8>, int>>>,
    parents: Seq<int>,
    d: Map<Seq<u8>, int>,
    t: int,
)
    requires
        l2.len() == l.len(),
        forall|p: int|
            0 <= p < l.len() ==> match (l[p], #[trigger] l2[p]) {
                (None, None) => true,
                (Some(m), Some(m2)) => m2 == restrict_to(m, t),
                (None, Some(_)) => false,
                (Some(_), None) => false,
            },
    ensures
        attach_parents(l2, parents, restrict_to(d, t)).len() == attach_parents(
            l,
            parents,
            d,
        ).len(),
        attach_parents(l, parents, d).len() == l.len(),
        forall|p: int|
            0 <= p < l.len() ==> match (
                attach_parents(l, parents, d)[p],
                #[trigger] attach_parents(l2, parents, restrict_to(d, t))[p],
            ) {
                (None, None) => true,
                (Some(m), Some(m2)) => m2 == restrict_to(m, t),
                (None, Some(_)) => false,
                (Some(_), None) => false,
            },
    decreases parents.len(),
{
    if parents.len() == 0 {
    } else {
        lemma_attach_sim(l, l2, parents.drop_last(), d, t);
    }
}

proof fn lemma_step_revision_sim(
    h: Seq<RevNodeModel>,
    st: WalkState,
    st2: WalkState,
    i: int,
    t: int,
)
    requires
        states_match(st, st2, t),
        0 <= i < h.len() && 0 <= i < st.lineages.len() ==> match st.lineages[i] {
            Some(frozen) => forall|j: int|
                0 <= j < h[i].changes.len() ==> change_safe(
                    apply_changes(
                        frozen,
                        frozen,
                        st.records,
                        h[i].timestamp,
                        h[i].changes.take(j),
                    ).0,
                    #[trigger] h[i].changes[j],
                    t,
                ),
            None => true,
        },
    ensures
        states_match(step_revision(h, st, i), step_revision(h, st2, i), t),
{
    if 0 <= i < h.len() && 0 <= i < st.lineages.len() {
        match st.lineages[i] {
            None => {
                assert(st2.lineages[i] is None);
            },
            Some(frozen) => {
                let frozen2 = st2.lineages[i]->Some_0;
                assert(frozen2 == restrict_to(frozen, t));
                lemma_apply_changes_sim(
                    frozen,
                    frozen,
                    st.records,
                    st2.records,
                    h[i].timestamp,
                    h[i].changes,
                    t,
                );
                let dr = apply_changes(frozen, frozen, st.records, h[i].timestamp, h[i].changes);
                lemma_attach_sim(st.lineages, st2.lineages, h[i].parents, dr.0, t);
            },
        }
    }
}

proof fn lemma_upto_sim(
    h: Seq<RevNodeModel>,
    seed: Seq<Vec<u8>>,
    single: Seq<Vec<u8>>,
    t: int,
    j: int,
)
    requires
        0 <= t < seed.len(),
        distinct_names(seed),
        single.len() == 1,
        single[0]@ == seed[t]@,
        walk_safe_for(h, seed, t),
        0 <= j,
    ensures
        states_match(walk_upto(h, seed, j), walk_upto(h, single, j), t),
    decreases j,
{
    if j == 0 {
        let st = initial_state(h, seed);
        let st2 = initial_state(h, single);
        assert(seed_map(single) == restrict_to(seed_map(seed), t)) by {
            assert(seed_map(single) == seed_map(single.drop_last()).insert(single.last()@, 0));
            assert(single.drop_last().len() == 0);
            assert_maps_equal!(seed_map(single), restrict_to(seed_map(seed), t), k => {
                lemma_seed_map_domain(seed, k);
                lemma_seed_map_lookup(seed, t);
                if k != seed[t]@ {
                    if seed_map(seed).contains_key(k) && seed_map(seed)[k] == t {
                        let i0 = choose|i0: int| 0 <= i0 < seed.len() && seed[i0]@ == k;
                        lemma_seed_map_lookup(seed, i0);
                        assert(i0 == t);
                        assert(false);
                    }
                }
            });
        }
        assert forall|p: int|
            0 <= p < st.lineages.len() implies match (st.lineages[p], #[trigger] st2.lineages[p]) {
            (None, None) => true,
            (Some(m), Some(m2)) => m2 == restrict_to(m, t),
            (None, Some(_)) => false,
            (Some(_), None) => false,
        } by {
            if p == 0 {
                assert(st.lineages[0] == Some(seed_map(seed)));
                assert(st2.lineages[0] == Some(seed_map(single)));
            }
        }
    } else {
        lemma_upto_sim(h, seed, single, t, j - 1);
        let st = walk_upto(h, seed, j - 1);
        let st2 = walk_upto(h, single, j - 1);
        if 0 <= j - 1 < h.len() && 0 <= j - 1 < st.lineages.len() {
            match st.lineages[j - 1] {
                None => {},
                Some(frozen) => {
                    assert forall|jj: int| 0 <= jj < h[j - 1].changes.len() implies change_safe(
                        apply_changes(
                            frozen,
                            frozen,
                            st.records,
                            h[j - 1].timestamp,
                            h[j - 1].changes.take(jj),
                        ).0,
                        #[trigger] h[j - 1].changes[jj],
                        t,
                    ) by {
                        assert(change_safe(prefix_derived(h, seed, j - 1, jj), h[j - 1].changes[jj], t));
                    }
                },
            }
        }
        lemma_step_revision_sim(h, st, st2, j - 1, t);
    }
}

/// A history without renames satisfies the safety hypothesis for every
/// file: only a rename can move one file's lineage entry onto another's
/// name, so the incremental equivalence below holds of such histories
/// unconditionally.
pub proof fn lemma_rename_free_walk_safe(h: Seq<RevNodeModel>, seed: Seq<Vec<u8>>, t: int)
    requires
        forall|i: int, j: int|
            0 <= i < h.len() && 0 <= j < h[i].changes.len() ==> (#[trigger] h[i].changes[j]).kind
                != ChangeKind::Renamed,
    ensures
        walk_safe_for(h, seed, t),
{
    assert forall|i: int, j: int|
        0 <= i < h.len() && 0 <= j < h[i].changes.len() implies change_safe(
        prefix_derived(h, seed, i, j),
        #[trigger] h[i].changes[j],
        t,
    ) by {
        assert(h[i].changes[j].kind != ChangeKind::Renamed);
    }
}

/// Incremental equivalence: for a file `seed[t]`, walking the full history
/// with the single-file seed yields exactly the record the full-seed walk
/// yields for `t` — provided no rename in the history moves another
/// seeded file's entry onto a name currently resolving to `seed[t]`
/// ([`walk_safe_for`]; such a collision would let the fuller seed displace
/// the file's lineage in a way a single-file walk cannot see).
pub proof fn lemma_incremental_equivalence(
    h: Seq<RevNodeModel>,
    seed: Seq<Vec<u8>>,
    single: Seq<Vec<u8>>,
    t: int,
)
    requires
        0 <= t < seed.len(),
        distinct_names(seed),
        single.len() == 1,
        single[0]@ == seed[t]@,
        walk_safe_for(h, seed, t),
    ensures
        walk_records(h, single).len() == 1,
        walk_records(h, seed).len() == seed.len(),
        walk_records(h, single)[0] == walk_records(h, seed)[t],
{
    lemma_upto_sim(h, seed, single, t, h.len() as int);
    crate::laws::lemma_records_keyed_by_seed(h, seed);
    crate::laws::lemma_records_keyed_by_seed(h, single);
}

} // verus!
