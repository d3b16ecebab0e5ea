use vstd::prelude::*;

verus! {

/// Failure of a provenance walk.
///
/// Every variant is fatal for the walk that raised it: timestamps may be
/// derived from any part of the history graph, so there is no safe partial
/// result once the graph or a commit's time cannot be read.
#[derive(Debug, Clone)]
pub enum WalkError {
    /// No repository encloses the tracked directory, or it cannot be opened.
    /// The payload is the message reported by the version-control layer.
    Discovery(String),
    /// A commit, tree or diff lookup failed while reading history.
    /// The payload is the message reported by the version-control layer.
    Git(String),
    /// A commit carries an author time whose timezone offset is not a
    /// representable fixed offset (beyond a whole day in either direction).
    BadTimestamp,
    /// The discovered revision graph cannot be ordered newest-first
    /// (a cycle, or a revision unreachable from the live snapshot), so the
    /// traversal-order guarantee cannot be established.
    CorruptHistory,
    /// A filename does not follow the `YYYY-MM-DD-identifier.md` shape.
    BadFilename,
}

impl WalkError {
    /// A short fixed description of the failure class, for callers that
    /// cannot read the payload.
    pub fn describe(&self) -> (r: &'static str)
        ensures
            r@.len() > 0,
    {
        proof {
            reveal_strlit("cannot open the enclosing repository");
            reveal_strlit("cannot read the revision history");
            reveal_strlit("a commit's author time cannot be represented");
            reveal_strlit("the revision graph cannot be ordered newest-first");
            reveal_strlit("a filename does not follow the post naming shape");
        }
        match self {
            WalkError::Discovery(_) => "cannot open the enclosing repository",
            WalkError::Git(_) => "cannot read the revision history",
            WalkError::BadTimestamp => "a commit's author time cannot be represented",
            WalkError::CorruptHistory => "the revision graph cannot be ordered newest-first",
            WalkError::BadFilename => "a filename does not follow the post naming shape",
        }
    }
}

} // verus!
