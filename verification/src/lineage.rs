//! Rename lineage: per revision, a mapping from a filename as it stood at
//! or after that revision to the index of the seeded file it is known as
//! today.
//!
//! A lineage is immutable once frozen and attached to a revision; while the
//! derived lineage for a revision's parents is being built, two mutations
//! apply: a rename moves the entry for the new name onto the old name, and
//! an addition removes the entry for the added name — an older revision
//! cannot validly resolve a name whose identity was only introduced later.

use vstd::prelude::*;
use crate::ids::bytes_eq;
use crate::ids::copy_bytes;

verus! {

/// The mapping denoted by an entry list: later entries win.
spec fn entries_map(s: Seq<(Vec<u8>, usize)>) -> Map<Seq<u8>, int>
    decreases s.len(),
{
    if s.len() == 0 {
        Map::empty()
    } else {
        entries_map(s.drop_last()).insert(s.last().0@, s.last().1 as int)
    }
}

/// Every entry agrees with the mapping the whole list denotes, so a lookup
/// may stop at any entry whose key matches.
spec fn faithful(s: Seq<(Vec<u8>, usize)>) -> bool {
    forall|i: int|
        0 <= i < s.len() ==> #[trigger] entries_map(s).contains_key(s[i].0@) && entries_map(s)[
            s[i].0@
        ] == s[i].1 as int
}

proof fn lemma_map_domain(s: Seq<(Vec<u8>, usize)>, k: Seq<u8>)
    ensures
        entries_map(s).contains_key(k) <==> exists|i: int| 0 <= i < s.len() && s[i].0@ == k,
    decreases s.len(),
{
    if s.len() == 0 {
    } else {
        lemma_map_domain(s.drop_last(), k);
        if s.last().0@ == k {
            assert(s[s.len() - 1].0@ == k);
        } else {
            if exists|i: int| 0 <= i < s.len() && s[i].0@ == k {
                let i = choose|i: int| 0 <= i < s.len() && s[i].0@ == k;
                assert(s.drop_last()[i] == s[i]);
            }
            if exists|i: int| 0 <= i < s.drop_last().len() && s.drop_last()[i].0@ == k {
                let i = choose|i: int| 0 <= i < s.drop_last().len() && s.drop_last()[i].0@ == k;
                assert(s[i] == s.drop_last()[i]);
            }
        }
    }
}

/// In a lineage every resolvable name maps to an index below `n`.
pub open spec fn values_below(m: Map<Seq<u8>, int>, n: int) -> bool {
    forall|k: Seq<u8>| #[trigger] m.contains_key(k) ==> 0 <= m[k] < n
}

/// What a rename does to a lineage mapping: where the new name resolves,
/// its entry moves onto the old name (which from then on resolves to the
/// same current identity); where it does not, the rename concerns no file
/// of interest and nothing changes.
pub open spec fn spec_rename(m: Map<Seq<u8>, int>, old_name: Seq<u8>, new_name: Seq<u8>) -> Map<
    Seq<u8>,
    int,
> {
    if m.contains_key(new_name) {
        m.remove(new_name).insert(old_name, m[new_name])
    } else {
        m
    }
}

/// What an addition does to a lineage mapping: the added name stops
/// resolving.
pub open spec fn spec_addition(m: Map<Seq<u8>, int>, name: Seq<u8>) -> Map<Seq<u8>, int> {
    m.remove(name)
}

/// The identity mapping over a seed: each seeded name resolves to its own
/// index.
pub open spec fn seed_map(s: Seq<Vec<u8>>) -> Map<Seq<u8>, int>
    decreases s.len(),
{
    if s.len() == 0 {
        Map::empty()
    } else {
        seed_map(s.drop_last()).insert(s.last()@, s.len() - 1)
    }
}

/// No two seeded files carry the same name.
pub open spec fn distinct_names(s: Seq<Vec<u8>>) -> bool {
    forall|a: int, b: int| 0 <= a < b < s.len() ==> s[a]@ != s[b]@
}

/// A mapping from historical filenames to the seed index of the file each
/// one is known as today.
pub struct Lineage {
    entries: Vec<(Vec<u8>, usize)>,
}

impl View for Lineage {
    type V = Map<Seq<u8>, int>;

    closed spec fn view(&self) -> Map<Seq<u8>, int> {
        entries_map(self.entries@)
    }
}

/// The entries of `s` whose key is not `k`, freshly copied.
fn entries_without(s: &Vec<(Vec<u8>, usize)>, k: &Vec<u8>) -> (r: Vec<(Vec<u8>, usize)>)
    requires
        faithful(s@),
    ensures
        entries_map(r@) == entries_map(s@).remove(k@),
        faithful(r@),
        forall|a: int| 0 <= a < r@.len() ==> r@[a].0@ != k@,
{
    let mut r: Vec<(Vec<u8>, usize)> = Vec::new();
    let mut j: usize = 0;
    while j < s.len()
        invariant
            j <= s@.len(),
            faithful(s@),
            entries_map(r@) == entries_map(s@.take(j as int)).remove(k@),
            forall|a: int|
                0 <= a < r@.len() ==> r@[a].0@ != k@ && #[trigger] entries_map(
                    s@,
                ).contains_key(r@[a].0@) && entries_map(s@)[r@[a].0@] == r@[a].1 as int,
        decreases s.len() - j,
    {
        proof {
            assert(s@.take(j + 1 as int).drop_last() =~= s@.take(j as int));
            assert(s@.take(j + 1 as int).last() == s@[j as int]);
            // The entry at `j` agrees with the whole mapping.
            assert(entries_map(s@).contains_key(s@[j as int].0@) && entries_map(s@)[s@[
                j as int
            ].0@] == s@[j as int].1 as int);
        }
        if !bytes_eq(&s[j].0, k) {
            let entry = (copy_bytes(&s[j].0), s[j].1);
            let ghost pre = r@;
            r.push(entry);
            proof {
                assert(r@.drop_last() =~= pre);
                assert(r@.last() == entry);
                assert(entries_map(s@.take(j + 1 as int)).remove(k@) =~= entries_map(
                    s@.take(j as int),
                ).remove(k@).insert(s@[j as int].0@, s@[j as int].1 as int));
            }
        } else {
            proof {
                assert(entries_map(s@.take(j + 1 as int)).remove(k@) =~= entries_map(
                    s@.take(j as int),
                ).remove(k@));
            }
        }
        j = j + 1;
    }
    proof {
        assert(s@.take(s@.len() as int) =~= s@);
        assert forall|a: int| 0 <= a < r@.len() implies #[trigger] entries_map(
            r@,
        ).contains_key(r@[a].0@) && entries_map(r@)[r@[a].0@] == r@[a].1 as int by {
            assert(entries_map(s@).contains_key(r@[a].0@));
            assert(entries_map(r@) == entries_map(s@).remove(k@));
        }
    }
    r
}

impl Lineage {
    /// The lineage's entry list denotes its mapping entry by entry, so
    /// lookups and rebuilds are sound.
    pub closed spec fn wf(self) -> bool {
        faithful(self.entries@)
    }

    /// The empty lineage, under which no name resolves.
    pub fn empty() -> (r: Lineage)
        ensures
            r.wf(),
            r@ == Map::<Seq<u8>, int>::empty(),
    {
        Lineage { entries: Vec::new() }
    }

    /// The identity lineage over the seeded filenames: at the live
    /// snapshot, every tracked file is known by its own name.
    pub fn identity_for(seed: &Vec<Vec<u8>>) -> (r: Lineage)
        requires
            distinct_names(seed@),
        ensures
            r.wf(),
            r@ == seed_map(seed@),
    {
        let mut entries: Vec<(Vec<u8>, usize)> = Vec::new();
        let mut i: usize = 0;
        while i < seed.len()
            invariant
                i <= seed@.len(),
                distinct_names(seed@),
                entries@.len() == i,
                forall|a: int|
                    0 <= a < i ==> #[trigger] entries@[a].0@ == seed@[a]@ && entries@[a].1 == a,
                entries_map(entries@) == seed_map(seed@.take(i as int)),
            decreases seed.len() - i,
        {
            proof {
                assert(seed@.take(i + 1 as int).drop_last() =~= seed@.take(i as int));
                assert(seed@.take(i + 1 as int).last() == seed@[i as int]);
            }
            let entry = (copy_bytes(&seed[i]), i);
            let ghost pre = entries@;
            entries.push(entry);
            proof {
                assert(entries@.drop_last() =~= pre);
                assert(entries@.last() == entry);
            }
            i = i + 1;
        }
        proof {
            assert(seed@.take(seed@.len() as int) =~= seed@);
            lemma_seed_entries_faithful(entries@, seed@);
        }
        Lineage { entries }
    }

    /// A fresh lineage denoting the same mapping.
    pub fn duplicate(&self) -> (r: Lineage)
        requires
            self.wf(),
        ensures
            r.wf(),
            r@ == self@,
    {
        let mut entries: Vec<(Vec<u8>, usize)> = Vec::new();
        let mut j: usize = 0;
        while j < self.entries.len()
            invariant
                j <= self.entries@.len(),
                faithful(self.entries@),
                entries@.len() == j,
                forall|a: int|
                    0 <= a < j ==> #[trigger] entries@[a].0@ == self.entries@[a].0@
                        && entries@[a].1 == self.entries@[a].1,
                entries_map(entries@) == entries_map(self.entries@.take(j as int)),
            decreases self.entries.len() - j,
        {
            proof {
                assert(self.entries@.take(j + 1 as int).drop_last() =~= self.entries@.take(
                    j as int,
                ));
                assert(self.entries@.take(j + 1 as int).last() == self.entries@[j as int]);
            }
            let entry = (copy_bytes(&self.entries[j].0), self.entries[j].1);
            let ghost pre = entries@;
            entries.push(entry);
            proof {
                assert(entries@.drop_last() =~= pre);
                assert(entries@.last() == entry);
            }
            j = j + 1;
        }
        proof {
            assert(self.entries@.take(self.entries@.len() as int) =~= self.entries@);
            assert forall|a: int| 0 <= a < entries@.len() implies #[trigger] entries_map(
                entries@,
            ).contains_key(entries@[a].0@) && entries_map(entries@)[entries@[a].0@]
                == entries@[a].1 as int by {
                assert(entries_map(self.entries@).contains_key(self.entries@[a].0@));
            }
        }
        Lineage { entries }
    }

    /// The current identity of `name` at this lineage's revision: the seed
    /// index it resolves to, or nothing where the name is not of interest.
    pub fn resolve(&self, name: &Vec<u8>) -> (r: Option<usize>)
        requires
            self.wf(),
        ensures
            match r {
                Some(v) => self@.contains_key(name@) && self@[name@] == v as int,
                None => !self@.contains_key(name@),
            },
    {
        let mut j: usize = 0;
        while j < self.entries.len()
            invariant
                j <= self.entries@.len(),
                self.wf(),
                forall|a: int| 0 <= a < j ==> self.entries@[a].0@ != name@,
            decreases self.entries.len() - j,
        {
            if bytes_eq(&self.entries[j].0, name) {
                proof {
                    assert(entries_map(self.entries@).contains_key(self.entries@[j as int].0@)
                        && entries_map(self.entries@)[self.entries@[j as int].0@]
                        == self.entries@[j as int].1 as int);
                }
                return Some(self.entries[j].1);
            }
            j = j + 1;
        }
        proof {
            lemma_map_domain(self.entries@, name@);
        }
        None
    }

    /// Records that this revision renamed `old_name` to `new_name`: where
    /// `new_name` resolves, its entry moves onto `old_name`; where it does
    /// not, the rename concerns no file of interest and nothing changes.
    pub fn record_rename(&mut self, old_name: &Vec<u8>, new_name: &Vec<u8>)
        requires
            old(self).wf(),
        ensures
            final(self).wf(),
            final(self)@ == spec_rename(old(self)@, old_name@, new_name@),
    {
        let found = self.resolve(new_name);
        match found {
            None => {},
            Some(v) => {
                let ghost m0 = entries_map(self.entries@);
                let kept1 = entries_without(&self.entries, new_name);
                let mut kept = entries_without(&kept1, old_name);
                let ghost pre = kept@;
                let entry = (copy_bytes(old_name), v);
                kept.push(entry);
                proof {
                    assert(kept@.drop_last() =~= pre);
                    assert(kept@.last() == entry);
                    assert(entries_map(kept@) == entries_map(pre).insert(old_name@, v as int));
                    assert(entries_map(kept@) =~= m0.remove(new_name@).insert(
                        old_name@,
                        v as int,
                    ));
                    assert forall|a: int| 0 <= a < kept@.len() implies #[trigger] entries_map(
                        kept@,
                    ).contains_key(kept@[a].0@) && entries_map(kept@)[kept@[a].0@]
                        == kept@[a].1 as int by {
                        if a < kept@.len() - 1 {
                            assert(kept@[a] == pre[a]);
                            assert(pre[a].0@ != old_name@);
                            assert(entries_map(pre).contains_key(pre[a].0@) && entries_map(pre)[
                                pre[a].0@
                            ] == pre[a].1 as int);
                        }
                    }
                }
                self.entries = kept;
            },
        }
    }

    /// Records that this revision introduced `name`: any older revision
    /// stops resolving it, because the name did not yet carry the tracked
    /// identity further back.
    pub fn record_addition(&mut self, name: &Vec<u8>)
        requires
            old(self).wf(),
        ensures
            final(self).wf(),
            final(self)@ == spec_addition(old(self)@, name@),
    {
        let kept = entries_without(&self.entries, name);
        self.entries = kept;
    }
}

proof fn lemma_seed_entries_faithful(entries: Seq<(Vec<u8>, usize)>, seed: Seq<Vec<u8>>)
    requires
        distinct_names(seed),
        entries.len() == seed.len(),
        forall|a: int|
            0 <= a < entries.len() ==> #[trigger] entries[a].0@ == seed[a]@ && entries[a].1 == a,
        entries_map(entries) == seed_map(seed),
    ensures
        faithful(entries),
{
    assert forall|i: int| 0 <= i < entries.len() implies #[trigger] entries_map(
        entries,
    ).contains_key(entries[i].0@) && entries_map(entries)[entries[i].0@] == entries[i].1 as int by {
        lemma_seed_map_lookup(seed, i);
    }
}

/// In the identity lineage over distinct seed names, each name resolves to
/// its own index.
pub proof fn lemma_seed_map_lookup(seed: Seq<Vec<u8>>, i: int)
    requires
        distinct_names(seed),
        0 <= i < seed.len(),
    ensures
        seed_map(seed).contains_key(seed[i]@),
        seed_map(seed)[seed[i]@] == i,
    decreases seed.len(),
{
    if i == seed.len() - 1 {
    } else {
        assert(distinct_names(seed.drop_last()));
        assert(seed.drop_last()[i] == seed[i]);
        lemma_seed_map_lookup(seed.drop_last(), i);
        assert(seed[i]@ != seed.last()@);
    }
}

/// The identity lineage resolves exactly the seeded names.
pub proof fn lemma_seed_map_domain(seed: Seq<Vec<u8>>, k: Seq<u8>)
    ensures
        seed_map(seed).contains_key(k) <==> exists|i: int| 0 <= i < seed.len() && seed[i]@ == k,
    decreases seed.len(),
{
    if seed.len() == 0 {
    } else {
        lemma_seed_map_domain(seed.drop_last(), k);
        if seed.last()@ == k {
            assert(seed[seed.len() - 1]@ == k);
        } else {
            if exists|i: int| 0 <= i < seed.len() && seed[i]@ == k {
                let i = choose|i: int| 0 <= i < seed.len() && seed[i]@ == k;
                assert(seed.drop_last()[i] == seed[i]);
            }
            if exists|i: int| 0 <= i < seed.drop_last().len() && seed.drop_last()[i]@ == k {
                let i = choose|i: int| 0 <= i < seed.drop_last().len() && seed.drop_last()[i]@
                    == k;
                assert(seed[i] == seed.drop_last()[i]);
            }
        }
    }
}

} // verus!
