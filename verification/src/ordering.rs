//! Ordering and assembly of the discovered revision graph.
//!
//! The discovery step hands over plain values: per commit its parents (as
//! indices into the discovery list, first parent first), its author time,
//! whether its message carried the timestamp-skip marker, and its
//! classified changes; plus the live snapshot's classified changes.
//! [`assemble_history`] turns them into the ordered [`History`] the walk
//! consumes, and its contract pins the result exactly: the live snapshot
//! stands at index 0 without a timestamp, the commits follow under a
//! position assignment in which every parent stands strictly after its
//! child, each node carries its own commit's renumbered parents, usable
//! timestamp and changes — and the unorderable-graph error comes back
//! exactly when no such position assignment exists.

use vstd::prelude::*;
use vstd::set_lib::lemma_int_range;
use vstd::set_lib::lemma_len_subset;
use vstd::set_lib::lemma_subset_equality;
use vstd::set_lib::set_int_range;
use crate::change::Change;
use crate::change::ChangeModel;
use crate::errors::WalkError;
use crate::history::History;
use crate::history::RevNode;
use crate::history::RevNodeModel;
use crate::times::Timestamp;
use crate::walk::changes_view;
use crate::walk::parents_view;

verus! {

/// The mathematical value of the discovered parent lists.
pub open spec fn adj_view(s: Seq<Vec<usize>>) -> Seq<Seq<int>> {
    s.map_values(|row: Vec<usize>| parents_view(row@))
}

/// The mathematical value of the discovered per-commit change lists.
pub open spec fn rows_view(s: Seq<Vec<Change>>) -> Seq<Seq<ChangeModel>> {
    s.map_values(|row: Vec<Change>| changes_view(row@))
}

/// Every listed parent is a discovered commit.
pub open spec fn adj_in_range(adj: Seq<Seq<int>>) -> bool {
    forall|c: int, k: int|
        0 <= c < adj.len() && 0 <= k < adj[c].len() ==> 0 <= #[trigger] adj[c][k] < adj.len()
}

/// `pos` is a processing order for the discovered commits: a bijective
/// assignment of positions under which every parent stands strictly after
/// its child — the traversal-order requirement, stated on the discovered
/// graph itself.
pub open spec fn valid_order(adj: Seq<Seq<int>>, pos: Seq<int>) -> bool {
    &&& pos.len() == adj.len()
    &&& forall|c: int| 0 <= c < pos.len() ==> 0 <= #[trigger] pos[c] < pos.len()
    &&& forall|a: int, b: int| 0 <= a < b < pos.len() ==> pos[a] != pos[b]
    &&& forall|c: int, k: int|
        0 <= c < adj.len() && 0 <= k < adj[c].len() ==> pos[#[trigger] adj[c][k]] > pos[c]
}

/// The assembled history, node by node: the live snapshot at index 0 (no
/// timestamp, one parent — the commit at position 0, which discovery makes
/// the branch tip), and for each discovered commit `c` the node at
/// `pos[c] + 1` carrying `c`'s parents renumbered through `pos`, `c`'s
/// author time (absent exactly where the skip marker matched `c`'s
/// message, as `skips` records) and `c`'s classified changes.
pub open spec fn assembled(
    h: Seq<RevNodeModel>,
    adj: Seq<Seq<int>>,
    times: Seq<Timestamp>,
    skips: Seq<bool>,
    changes: Seq<Seq<ChangeModel>>,
    live: Seq<ChangeModel>,
    pos: Seq<int>,
) -> bool {
    &&& h.len() == adj.len() + 1
    &&& h[0].timestamp is None
    &&& h[0].changes == live
    &&& h[0].parents == seq![pos[0] + 1]
    &&& forall|c: int|
        0 <= c < adj.len() ==> #[trigger] h[pos[c] + 1] == (RevNodeModel {
            parents: adj[c].map_values(|p: int| pos[p] + 1),
            timestamp: if skips[c] {
                None
            } else {
                Some(times[c])
            },
            changes: changes[c],
        })
}

/// Commit `i` may be emitted: every commit that lists `i` as a parent is
/// already emitted.
pub open spec fn spec_ready(adj: Seq<Seq<int>>, emitted: Seq<bool>, i: int) -> bool {
    forall|c: int, k: int|
        0 <= c < adj.len() && 0 <= k < adj[c].len() && !emitted[c] ==> #[trigger] adj[c][k] != i
}

spec fn emitted_set(em: Seq<bool>) -> Set<int> {
    Set::new(|i: int| 0 <= i < em.len() && em[i])
}

fn ready_to_emit(adj: &Vec<Vec<usize>>, emitted: &Vec<bool>, i: usize) -> (b: bool)
    requires
        emitted@.len() == adj@.len(),
    ensures
        b == spec_ready(adj_view(adj@), emitted@, i as int),
{
    let m = adj.len();
    let mut c: usize = 0;
    while c < m
        invariant
            m == adj@.len(),
            m == emitted@.len(),
            c <= m,
            forall|c2: int, k: int|
                0 <= c2 < c && 0 <= k < adj_view(adj@)[c2].len() && !emitted@[c2]
                    ==> #[trigger] adj_view(adj@)[c2][k] != i as int,
        decreases m - c,
    {
        if !emitted[c] {
            let row = &adj[c];
            let row_len = row.len();
            let mut k: usize = 0;
            while k < row_len
                invariant
                    c < m == adj@.len(),
                    m == emitted@.len(),
                    !emitted@[c as int],
                    row == adj@[c as int],
                    row_len == row@.len(),
                    adj_view(adj@)[c as int] == parents_view(row@),
                    k <= row_len,
                    forall|k2: int|
                        0 <= k2 < k ==> #[trigger] adj_view(adj@)[c as int][k2] != i as int,
                decreases row_len - k,
            {
                proof {
                    assert(adj_view(adj@)[c as int][k as int] == row@[k as int] as int);
                }
                if row[k] == i {
                    proof {
                        assert(0 <= (c as int) < adj_view(adj@).len());
                        assert((k as int) < adj_view(adj@)[c as int].len());
                        assert(!emitted@[c as int]);
                        assert(adj_view(adj@)[c as int][k as int] == i as int);
                        assert(!spec_ready(adj_view(adj@), emitted@, i as int));
                    }
                    return false;
                }
                k = k + 1;
            }
            proof {
                assert(adj_view(adj@)[c as int].len() == row@.len());
            }
        }
        c = c + 1;
    }
    true
}

/// Where some commit is still unemitted and every unemitted commit is
/// listed as a parent by another unemitted commit, no position assignment
/// can put every parent after its child: the earliest-placed member of the
/// stuck set would need an even earlier-placed member.
proof fn lemma_no_valid_order(adj: Seq<Seq<int>>, emitted: Seq<bool>)
    requires
        emitted.len() == adj.len(),
        adj_in_range(adj),
        exists|i: int| 0 <= i < emitted.len() && !emitted[i],
        forall|i: int|
            0 <= i < emitted.len() && !(#[trigger] emitted[i]) ==> !spec_ready(adj, emitted, i),
    ensures
        !(exists|pos: Seq<int>| #[trigger] valid_order(adj, pos)),
{
    assert forall|pos: Seq<int>| !(#[trigger] valid_order(adj, pos)) by {
        if valid_order(adj, pos) {
            let u0 = choose|i: int| 0 <= i < emitted.len() && !emitted[i];
            lemma_stuck_above(adj, emitted, pos, pos.len() - 1);
            assert(pos[u0] > pos.len() - 1);
        }
    }
}

/// Under a valid order, every unemitted commit of a stuck set sits at a
/// position strictly above `v`, by induction on `v`.
proof fn lemma_stuck_above(adj: Seq<Seq<int>>, emitted: Seq<bool>, pos: Seq<int>, v: int)
    requires
        emitted.len() == adj.len(),
        adj_in_range(adj),
        valid_order(adj, pos),
        forall|i: int|
            0 <= i < emitted.len() && !(#[trigger] emitted[i]) ==> !spec_ready(adj, emitted, i),
    ensures
        forall|u: int| 0 <= u < emitted.len() && !(#[trigger] emitted[u]) ==> pos[u] > v,
    decreases v + 1,
{
    if v < 0 {
    } else {
        lemma_stuck_above(adj, emitted, pos, v - 1);
        assert forall|u: int| 0 <= u < emitted.len() && !(#[trigger] emitted[u]) implies pos[u]
            > v by {
            if pos[u] <= v {
                // Not ready: some unemitted commit lists u as a parent and
                // must sit strictly below u, yet strictly above v - 1.
                assert(!spec_ready(adj, emitted, u));
                let (c, k) = choose|c: int, k: int|
                    0 <= c < adj.len() && 0 <= k < adj[c].len() && !emitted[c]
                        && #[trigger] adj[c][k] == u;
                assert(pos[adj[c][k]] > pos[c]);
                assert(pos[c] > v - 1);
            }
        }
    }
}

/// Orders the discovered commits and assembles the history for the walk.
///
/// Emission is deterministic: among the commits whose children are all
/// emitted, the one with the most recent author time goes first (lowest
/// discovery index on a tie), so the newest-reachable revision is
/// processed first wherever the graph allows. The contract pins the rest:
/// on success the result is [`assembled`] from the inputs under some
/// [`valid_order`], and the unorderable-graph error comes back exactly
/// when no valid order exists.
pub fn assemble_history(
    adj: &Vec<Vec<usize>>,
    times: &Vec<Timestamp>,
    skips: &Vec<bool>,
    changes: Vec<Vec<Change>>,
    live_changes: Vec<Change>,
) -> (r: Result<History, WalkError>)
    requires
        adj@.len() == times@.len(),
        adj@.len() == skips@.len(),
        adj@.len() == changes@.len(),
        1 <= adj@.len() < usize::MAX - 1,
        adj_in_range(adj_view(adj@)),
    ensures
        match r {
            Ok(h) => exists|pos: Seq<int>|
                #[trigger] valid_order(adj_view(adj@), pos) && assembled(
                    h@,
                    adj_view(adj@),
                    times@,
                    skips@,
                    rows_view(changes@),
                    changes_view(live_changes@),
                    pos,
                ),
            Err(e) => e is CorruptHistory && !(exists|pos: Seq<int>|
                #[trigger] valid_order(adj_view(adj@), pos)),
        },
{
    let ghost gadj = adj_view(adj@);
    let ghost grows = rows_view(changes@);
    let ghost glive = changes_view(live_changes@);
    let m = adj.len();
    let mut emitted: Vec<bool> = Vec::new();
    while emitted.len() < m
        invariant
            emitted@.len() <= m,
            forall|i: int| 0 <= i < emitted@.len() ==> !(#[trigger] emitted@[i]),
        decreases m - emitted.len(),
    {
        emitted.push(false);
    }
    let mut pos: Vec<usize> = Vec::new();
    while pos.len() < m
        invariant
            pos@.len() <= m,
        decreases m - pos.len(),
    {
        pos.push(0);
    }
    let mut order: Vec<usize> = Vec::new();
    proof {
        assert(emitted_set(emitted@) =~= Set::<int>::empty());
    }
    while order.len() < m
        invariant
            m == adj@.len(),
            m == times@.len(),
            gadj == adj_view(adj@),
            gadj.len() == m,
            adj_in_range(gadj),
            1 <= m < usize::MAX - 1,
            emitted@.len() == m,
            pos@.len() == m,
            order@.len() <= m,
            forall|k: int| 0 <= k < order@.len() ==> (#[trigger] order@[k] as int) < m,
            forall|k: int|
                0 <= k < order@.len() ==> emitted@[#[trigger] order@[k] as int] && pos@[order@[
                    k
                ] as int] as int == k,
            forall|i: int|
                0 <= i < m && #[trigger] emitted@[i] ==> (pos@[i] as int) < order@.len()
                    && (order@[pos@[i] as int] as int) == i,
            forall|c: int, k: int|
                0 <= c < m && 0 <= k < gadj[c].len() && emitted@[#[trigger] gadj[c][k]]
                    ==> emitted@[c] && pos@[c] < pos@[gadj[c][k]],
            emitted_set(emitted@).finite(),
            emitted_set(emitted@).len() == order@.len(),
        decreases m - order.len(),
    {
        let round = order.len();
        let mut best: Option<usize> = None;
        let mut i: usize = 0;
        while i < m
            invariant
                m == adj@.len(),
                m == times@.len(),
                gadj == adj_view(adj@),
                emitted@.len() == m,
                i <= m,
                match best {
                    Some(s) => s < m && !emitted@[s as int] && spec_ready(
                        gadj,
                        emitted@,
                        s as int,
                    ),
                    None => forall|i2: int|
                        0 <= i2 < i && !(#[trigger] emitted@[i2]) ==> !spec_ready(
                            gadj,
                            emitted@,
                            i2,
                        ),
                },
            decreases m - i,
        {
            if !emitted[i] && ready_to_emit(adj, &emitted, i) {
                best = match best {
                    None => Some(i),
                    Some(s) => if times[i].seconds > times[s].seconds {
                        Some(i)
                    } else {
                        Some(s)
                    },
                };
            }
            i = i + 1;
        }
        let sel = match best {
            None => {
                proof {
                    lemma_int_range(0, m as int);
                    assert(emitted_set(emitted@).subset_of(set_int_range(0, m as int)));
                    if forall|i2: int| 0 <= i2 < m ==> #[trigger] emitted@[i2] {
                        assert(set_int_range(0, m as int).subset_of(emitted_set(emitted@)));
                        lemma_len_subset(set_int_range(0, m as int), emitted_set(emitted@));
                        assert(false);
                    }
                    lemma_no_valid_order(gadj, emitted@);
                }
                return Err(WalkError::CorruptHistory);
            },
            Some(s) => s,
        };
        let ghost pre_em = emitted@;
        let ghost pre_pos = pos@;
        let ghost pre_order = order@;
        emitted[sel] = true;
        pos[sel] = round;
        order.push(sel);
        proof {
            vstd::set::axiom_set_insert_len(emitted_set(pre_em), sel as int);
            assert(emitted_set(emitted@) =~= emitted_set(pre_em).insert(sel as int));
            // The earlier rounds' entries are untouched: none of them is
            // the freshly emitted commit.
            assert forall|k: int| 0 <= k < order@.len() implies emitted@[#[trigger] order@[
                k
            ] as int] && (pos@[order@[k] as int] as int) == k by {
                if k < round {
                    assert(pre_order[k] as int != sel as int);
                }
            }
            assert forall|i2: int| 0 <= i2 < m && #[trigger] emitted@[i2] implies (pos@[
                i2
            ] as int) < order@.len() && (order@[pos@[i2] as int] as int) == i2 by {
                if i2 != sel as int {
                    assert(pre_em[i2]);
                }
            }
            // Every edge with an emitted parent still has its child
            // emitted strictly below it: the fresh parent's children were
            // all emitted in earlier rounds (that is what ready means).
            assert forall|c: int, k: int|
                0 <= c < m && 0 <= k < gadj[c].len() && emitted@[#[trigger] gadj[c][k]] implies
                emitted@[c] && pos@[c] < pos@[gadj[c][k]] by {
                let p = gadj[c][k];
                if p == sel as int {
                    assert(pre_em[c]);
                    assert(c != sel as int);
                    assert((pre_pos[c] as int) < round);
                } else {
                    assert(pre_em[p]);
                    assert(c != sel as int);
                }
            }
        }
    }
    proof {
        lemma_int_range(0, m as int);
        assert(emitted_set(emitted@).subset_of(set_int_range(0, m as int)));
        lemma_subset_equality(emitted_set(emitted@), set_int_range(0, m as int));
        assert forall|i: int| 0 <= i < m implies #[trigger] emitted@[i] by {
            assert(set_int_range(0, m as int).contains(i));
            assert(emitted_set(emitted@).contains(i));
        }
    }
    let ghost gpos: Seq<int> = pos@.map_values(|p: usize| p as int);
    proof {
        assert forall|c2: int| 0 <= c2 < m implies 0 <= #[trigger] gpos[c2] < m as int by {
            assert(emitted@[c2]);
        }
        assert forall|c2: int, k: int|
            0 <= c2 < gadj.len() && 0 <= k < gadj[c2].len() implies gpos[#[trigger] gadj[c2][k]]
            > gpos[c2] by {
            assert(emitted@[gadj[c2][k]]);
        }
        assert forall|a: int, b: int| 0 <= a < b < m implies gpos[a] != gpos[b] by {
            if gpos[a] == gpos[b] {
                assert(emitted@[a]);
                assert(emitted@[b]);
                assert((order@[pos@[a] as int] as int) == a);
                assert((order@[pos@[b] as int] as int) == b);
            }
        }
        assert(valid_order(gadj, gpos));
    }
    // Assembly: the live snapshot at index 0, then each commit's node at
    // its position.
    let mut nodes: Vec<RevNode> = Vec::new();
    while nodes.len() < m + 1
        invariant
            nodes@.len() <= m + 1,
            m < usize::MAX - 1,
        decreases m + 1 - nodes.len(),
    {
        nodes.push(RevNode { parents: Vec::new(), timestamp: None, changes: Vec::new() });
    }
    let mut live_parents: Vec<usize> = Vec::new();
    proof {
        assert(gpos[0] < m as int);
        assert((pos@[0] as int) == gpos[0]);
    }
    live_parents.push(1 + pos[0]);
    proof {
        assert(parents_view(live_parents@) =~= seq![gpos[0] + 1]);
    }
    let live_node = RevNode { parents: live_parents, timestamp: None, changes: live_changes };
    nodes[0] = live_node;
    let ghost changes0 = changes@;
    let mut changes = changes;
    let mut c = m;
    proof {
        assert(changes0.take(m as int) =~= changes0);
    }
    while c > 0
        invariant
            m == adj@.len(),
            m == times@.len(),
            m == skips@.len(),
            m == changes0.len(),
            m < usize::MAX - 1,
            gadj == adj_view(adj@),
            gadj.len() == m,
            adj_in_range(gadj),
            valid_order(gadj, gpos),
            gpos == pos@.map_values(|p: usize| p as int),
            pos@.len() == m,
            grows == rows_view(changes0),
            c <= m,
            changes@ == changes0.take(c as int),
            nodes@.len() == m + 1,
            nodes@[0]@.timestamp is None,
            nodes@[0]@.changes == glive,
            nodes@[0]@.parents == seq![gpos[0] + 1],
            forall|c2: int|
                c <= c2 < m ==> nodes@[gpos[c2] + 1]@ == (RevNodeModel {
                    parents: gadj[c2].map_values(|p: int| gpos[p] + 1),
                    timestamp: if skips@[c2] {
                        None
                    } else {
                        Some(times@[c2])
                    },
                    changes: #[trigger] grows[c2],
                }),
        decreases c,
    {
        c = c - 1;
        let ghost pre_changes = changes@;
        let row = match changes.pop() {
            Some(r) => r,
            None => {
                proof {
                    assert(false);
                }
                Vec::new()
            },
        };
        proof {
            assert(row == changes0.take(c + 1 as int).last());
            assert(changes0.take(c + 1 as int).last() == changes0[c as int]);
            assert(changes@ =~= changes0.take(c as int));
        }
        let row_len = adj[c].len();
        let mut parents: Vec<usize> = Vec::new();
        let mut k: usize = 0;
        while k < row_len
            invariant
                c < m == adj@.len(),
                m < usize::MAX - 1,
                gadj == adj_view(adj@),
                adj_in_range(gadj),
                valid_order(gadj, gpos),
                gpos == pos@.map_values(|p: usize| p as int),
                pos@.len() == m,
                row_len == gadj[c as int].len(),
                parents@.len() == k <= row_len,
                forall|k2: int|
                    0 <= k2 < k ==> (#[trigger] parents@[k2] as int) == gpos[gadj[c as int][k2]]
                        + 1,
            decreases row_len - k,
        {
            proof {
                assert(gadj[c as int][k as int] == adj@[c as int]@[k as int] as int);
                assert(0 <= gadj[c as int][k as int] < m);
                assert(gpos[adj@[c as int]@[k as int] as int] < m as int);
            }
            let p = adj[c][k];
            parents.push(1 + pos[p]);
            k = k + 1;
        }
        proof {
            assert(parents_view(parents@) =~= gadj[c as int].map_values(|p: int| gpos[p] + 1));
        }
        let timestamp = if skips[c] {
            None
        } else {
            Some(times[c])
        };
        let node = RevNode { parents, timestamp, changes: row };
        proof {
            assert(gpos[c as int] < m);
        }
        let idx = 1 + pos[c];
        let ghost pre_nodes = nodes@;
        nodes[idx] = node;
        proof {
            assert(grows[c as int] == changes_view(changes0[c as int]@));
            assert(nodes@[gpos[c as int] + 1]@ == (RevNodeModel {
                parents: gadj[c as int].map_values(|p: int| gpos[p] + 1),
                timestamp: if skips@[c as int] {
                    None
                } else {
                    Some(times@[c as int])
                },
                changes: grows[c as int],
            }));
            // Other commits' nodes and the live node keep their places:
            // positions are distinct and never zero.
            assert forall|c2: int| c < c2 < m implies nodes@[gpos[c2] + 1]@ == (RevNodeModel {
                parents: gadj[c2].map_values(|p: int| gpos[p] + 1),
                timestamp: if skips@[c2] {
                    None
                } else {
                    Some(times@[c2])
                },
                changes: #[trigger] grows[c2],
            }) by {
                assert(gpos[c2] != gpos[c as int]);
                assert(nodes@[gpos[c2] + 1] == pre_nodes[gpos[c2] + 1]);
            }
        }
    }
    let history = History { nodes };
    proof {
        assert(changes@ =~= Seq::<Vec<Change>>::empty());
        assert forall|c2: int| 0 <= c2 < m implies #[trigger] history@[gpos[c2] + 1]
            == (RevNodeModel {
            parents: gadj[c2].map_values(|p: int| gpos[p] + 1),
            timestamp: if skips@[c2] {
                None
            } else {
                Some(times@[c2])
            },
            changes: grows[c2],
        }) by {
            assert(history@[gpos[c2] + 1] == history.nodes@[gpos[c2] + 1]@);
        }
        assert(history@[0] == history.nodes@[0]@);
        assert(assembled(history@, gadj, times@, skips@, grows, glive, gpos));
    }
    Ok(history)
}

} // verus!
