use vstd::prelude::*;

verus! {

/// The largest timezone offset a commit may carry, in minutes: strictly
/// less than one day in either direction, matching what a fixed-offset
/// timezone can represent.
pub const MAX_OFFSET_MINUTES: i32 = 1439;

/// An author time as recorded by a commit: seconds since the Unix epoch
/// together with the recorded timezone offset.
///
/// The offset never takes part in chronological comparison — `seconds`
/// already fixes the instant — but it is preserved so that the timestamp
/// can be rendered in the zone the commit was made in, as required of
/// timestamp extraction.
#[derive(Debug, Clone, Copy, PartialEq, Eq, Structural)]
pub struct Timestamp {
    /// Seconds since the Unix epoch, at UTC.
    pub seconds: i64,
    /// Recorded timezone offset, in minutes east of UTC.
    pub offset_minutes: i32,
}

impl Timestamp {
    /// The offset is a representable fixed offset: strictly less than
    /// 24 hours away from UTC in either direction.
    pub open spec fn spec_offset_valid(self) -> bool {
        -MAX_OFFSET_MINUTES <= self.offset_minutes <= MAX_OFFSET_MINUTES
    }

    /// Chronological order of the instants, ignoring the display offset.
    pub open spec fn spec_earlier_than(self, other: Timestamp) -> bool {
        self.seconds < other.seconds
    }

    /// Whether the offset is a representable fixed offset.
    pub fn offset_valid(&self) -> (r: bool)
        ensures
            r == self.spec_offset_valid(),
    {
        -MAX_OFFSET_MINUTES <= self.offset_minutes && self.offset_minutes <= MAX_OFFSET_MINUTES
    }

    /// Whether this instant is strictly before `other`.
    pub fn earlier_than(&self, other: &Timestamp) -> (r: bool)
        ensures
            r == self.spec_earlier_than(*other),
    {
        self.seconds < other.seconds
    }
}

} // verus!
