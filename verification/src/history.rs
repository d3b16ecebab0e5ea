//! A plain-value snapshot of the revision graph, ordered for the walk.
//!
//! Revisions are held newest-reachable-first: index 0 is the live snapshot,
//! and every parent stands strictly after its child. Processing revisions
//! in index order therefore visits a revision only after every revision
//! that has it as a parent — the traversal-order requirement the whole
//! derivation rests on.

use vstd::prelude::*;
use crate::change::Change;
use crate::change::ChangeModel;
use crate::times::Timestamp;

verus! {

/// One revision: its parents (as indices into the same history, ordered,
/// first parent first), its usable timestamp (absent for the live snapshot
/// and for commits excluded from timestamp contribution), and its
/// classified changes against its first parent.
#[derive(Debug)]
pub struct RevNode {
    pub parents: Vec<usize>,
    pub timestamp: Option<Timestamp>,
    pub changes: Vec<Change>,
}

/// The mathematical value of a revision.
pub ghost struct RevNodeModel {
    pub parents: Seq<int>,
    pub timestamp: Option<Timestamp>,
    pub changes: Seq<ChangeModel>,
}

impl View for RevNode {
    type V = RevNodeModel;

    open spec fn view(&self) -> RevNodeModel {
        RevNodeModel {
            parents: self.parents@.map_values(|p: usize| p as int),
            timestamp: self.timestamp,
            changes: self.changes@.map_values(|c: Change| c@),
        }
    }
}

/// The revision graph as the walk consumes it.
#[derive(Debug)]
pub struct History {
    pub nodes: Vec<RevNode>,
}

impl View for History {
    type V = Seq<RevNodeModel>;

    open spec fn view(&self) -> Seq<RevNodeModel> {
        self.nodes@.map_values(|n: RevNode| n@)
    }
}

/// Some revision before `p` lists `p` among its parents.
pub open spec fn has_child(s: Seq<RevNodeModel>, p: int) -> bool {
    exists|c: int, k: int|
        0 <= c < p && 0 <= k < s[c].parents.len() && #[trigger] s[c].parents[k] == p
}

/// The traversal-order guarantee, as a shape of the data: the history is
/// nonempty, starts at the live snapshot, every parent stands strictly
/// after its child, and every revision but the live snapshot is the parent
/// of some earlier revision (so its lineage exists by the time it is
/// processed).
pub open spec fn graph_ordered(s: Seq<RevNodeModel>) -> bool {
    &&& s.len() > 0
    &&& forall|i: int, k: int|
        0 <= i < s.len() && 0 <= k < s[i].parents.len() ==> i < #[trigger] s[i].parents[k]
            < s.len()
    &&& forall|p: int| 1 <= p < s.len() ==> #[trigger] has_child(s, p)
}

impl History {
    /// The traversal-order guarantee holds of this history.
    pub open spec fn well_formed(self) -> bool {
        graph_ordered(self@)
    }
}

} // verus!
