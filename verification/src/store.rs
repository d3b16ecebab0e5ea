//! Provenance records: per currently-tracked file, the earliest and most
//! recent observed timestamps, with the identity of the content each one
//! saw.
//!
//! Records mutate monotonically during a walk. Under the newest-first
//! traversal order, the first observation of a file is its most recent
//! change, so it fixes `updated`; `created` then only ever moves earlier in
//! time, and `updated` is revised to an earlier observation only while the
//! observed content identity still matches it — so that after the walk,
//! `updated` names the commit that introduced the currently-known content.

use vstd::prelude::*;
use crate::ids::ObjectId;
use crate::times::Timestamp;

verus! {

/// One timestamped observation: when, and of what content.
#[derive(Debug, Clone, PartialEq, Eq)]
pub struct Observation {
    pub time: Timestamp,
    pub content: ObjectId,
}

/// The mathematical value of an observation.
pub ghost struct ObservationModel {
    pub time: Timestamp,
    pub content: Seq<u8>,
}

impl View for Observation {
    type V = ObservationModel;

    open spec fn view(&self) -> ObservationModel {
        ObservationModel { time: self.time, content: self.content@ }
    }
}

/// The provenance gathered for one currently-tracked file.
#[derive(Debug, Clone, PartialEq, Eq)]
pub struct ProvenanceRecord {
    pub created: Option<Observation>,
    pub updated: Option<Observation>,
}

/// The mathematical value of a provenance record.
pub ghost struct RecordModel {
    pub created: Option<ObservationModel>,
    pub updated: Option<ObservationModel>,
}

impl View for ProvenanceRecord {
    type V = RecordModel;

    open spec fn view(&self) -> RecordModel {
        RecordModel {
            created: match self.created {
                Some(o) => Some(o@),
                None => None,
            },
            updated: match self.updated {
                Some(o) => Some(o@),
                None => None,
            },
        }
    }
}

impl RecordModel {
    /// A record never observed at all, the state every record is seeded in.
    pub open spec fn fresh() -> RecordModel {
        RecordModel { created: None, updated: None }
    }

    /// Both fields are set together at the first observation, so a record
    /// either has both or has neither.
    pub open spec fn consistent(self) -> bool {
        self.created is Some <==> self.updated is Some
    }
}

/// What one observation does to a record, given the newest-first traversal
/// order:
/// - the first observation sets both fields;
/// - `created` moves to the observation exactly where it is strictly
///   earlier than the current `created`;
/// - `updated` moves to the observation exactly where the observed content
///   is the content `updated` already names, so that it ends at the oldest
///   observation of the currently-known content.
pub open spec fn spec_observe(r: RecordModel, t: Timestamp, id: Seq<u8>) -> RecordModel {
    RecordModel {
        created: match r.created {
            None => Some(ObservationModel { time: t, content: id }),
            Some(c) => if t.seconds < c.time.seconds {
                Some(ObservationModel { time: t, content: id })
            } else {
                r.created
            },
        },
        updated: match r.updated {
            None => Some(ObservationModel { time: t, content: id }),
            Some(u) => if u.content == id {
                Some(ObservationModel { time: t, content: id })
            } else {
                r.updated
            },
        },
    }
}

/// What the resolved `(publish, update)` pair of a record is:
/// - a caller-supplied override always wins for its field;
/// - otherwise `publish` is the earliest observed time, or `now` for a
///   file no commit has ever carried;
/// - otherwise `update` is the most recent observed time, suppressed when
///   the content it names is the content `created` named — a file never
///   modified since the commit that created it has no meaningful update
///   time of its own.
pub open spec fn spec_resolve_times(
    force_publish: Option<Timestamp>,
    force_update: Option<Timestamp>,
    r: RecordModel,
    now: Timestamp,
) -> (Timestamp, Option<Timestamp>) {
    let publish = match force_publish {
        Some(t) => t,
        None => match r.created {
            Some(c) => c.time,
            None => now,
        },
    };
    let reduced = match r.updated {
        None => None,
        Some(u) => match r.created {
            Some(c) => if u.content == c.content {
                None
            } else {
                Some(u.time)
            },
            None => None,
        },
    };
    let update = match force_update {
        Some(t) => Some(t),
        None => reduced,
    };
    (publish, update)
}

impl ProvenanceRecord {
    /// A record never observed at all.
    pub fn fresh() -> (r: ProvenanceRecord)
        ensures
            r@ == RecordModel::fresh(),
    {
        ProvenanceRecord { created: None, updated: None }
    }

    /// The record after one more observation, per the observation rule.
    pub fn observed(&self, t: Timestamp, id: &ObjectId) -> (r: ProvenanceRecord)
        ensures
            r@ == spec_observe(self@, t, id@),
            r@.consistent(),
            self@.consistent() ==> match (self@.created, r@.created) {
                (Some(before), Some(after)) => after.time.seconds <= before.time.seconds,
                (None, Some(_)) => true,
                _ => false,
            },
    {
        let new_updated = match &self.updated {
            None => Some(Observation { time: t, content: id.duplicate() }),
            Some(u) => if u.content.same_as(id) {
                Some(Observation { time: t, content: id.duplicate() })
            } else {
                Some(u.clone_obs())
            },
        };
        let new_created = match &self.created {
            None => Some(Observation { time: t, content: id.duplicate() }),
            Some(c) => if t.earlier_than(&c.time) {
                Some(Observation { time: t, content: id.duplicate() })
            } else {
                Some(c.clone_obs())
            },
        };
        ProvenanceRecord { created: new_created, updated: new_updated }
    }

    /// Feeds one observation into the record in place.
    pub fn observe(&mut self, t: Timestamp, id: &ObjectId)
        ensures
            final(self)@ == spec_observe(old(self)@, t, id@),
            final(self)@.consistent(),
    {
        let r = self.observed(t, id);
        self.created = r.created;
        self.updated = r.updated;
    }

    /// The resolved `(publish, update)` pair, per the resolution rule.
    /// Overrides come from the file's own parsed metadata and bypass the
    /// gathered provenance for their field.
    pub fn resolve_times(
        &self,
        force_publish: Option<Timestamp>,
        force_update: Option<Timestamp>,
        now: Timestamp,
    ) -> (r: (Timestamp, Option<Timestamp>))
        ensures
            r == spec_resolve_times(force_publish, force_update, self@, now),
    {
        let publish = match force_publish {
            Some(t) => t,
            None => match &self.created {
                Some(c) => c.time,
                None => now,
            },
        };
        let reduced = match &self.updated {
            None => None,
            Some(u) => match &self.created {
                Some(c) => if u.content.same_as(&c.content) {
                    None
                } else {
                    Some(u.time)
                },
                None => None,
            },
        };
        let update = match force_update {
            Some(t) => Some(t),
            None => reduced,
        };
        (publish, update)
    }
}

impl Observation {
    /// An observation with the same time and content.
    pub fn clone_obs(&self) -> (r: Observation)
        ensures
            r@ == self@,
    {
        Observation { time: self.time, content: self.content.duplicate() }
    }
}

} // verus!
