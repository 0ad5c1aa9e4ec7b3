//! Instants of time, as the records store them.

use vstd::prelude::*;

verus! {

/// An instant in UTC: whole seconds since the Unix epoch, and the
/// nanoseconds that have passed of the second after them.
#[derive(Debug, Clone, Copy, PartialEq, Eq)]
pub struct Timestamp {
    pub seconds: i64,
    pub nanoseconds: u32,
}

impl Timestamp {
    /// Whether this instant lies strictly after `other`.
    pub open spec fn is_after(self, other: Timestamp) -> bool {
        self.seconds > other.seconds || (self.seconds == other.seconds && self.nanoseconds
            > other.nanoseconds)
    }

    /// The instant `seconds` after the Unix epoch.
    pub fn from_seconds(seconds: i64) -> (r: Timestamp)
        ensures
            r == (Timestamp { seconds, nanoseconds: 0 }),
    {
        Timestamp { seconds, nanoseconds: 0 }
    }

    /// Whether this instant lies strictly after `other`.
    pub fn later_than(&self, other: &Timestamp) -> (r: bool)
        ensures
            r == self.is_after(*other),
    {
        self.seconds > other.seconds || (self.seconds == other.seconds && self.nanoseconds
            > other.nanoseconds)
    }

    /// The present instant, as the clock of the machine gives it.
    pub fn now() -> Timestamp {
        current_time()
    }
}

/// Whether a record is out of date: the file it describes was modified
/// strictly after the record was last updated. A file modified at the very
/// instant of the update is up to date.
pub fn is_stale(modified: &Timestamp, last_updated: &Timestamp) -> (r: bool)
    ensures
        r == modified.is_after(*last_updated),
        modified == last_updated ==> !r,
{
    modified.later_than(last_updated)
}

/// Reads the clock with `chrono::Utc::now` and takes the instant apart into
/// its seconds since the epoch and the nanoseconds of its second. The result
/// depends on the moment of the call, so nothing is stated of it. Like
/// `Utc::now`, the call panics on a machine whose clock stands before 1970.
#[verifier::external_body]
fn current_time() -> Timestamp {
    let now = chrono::Utc::now();
    Timestamp { seconds: now.timestamp(), nanoseconds: now.timestamp_subsec_nanos() }
}

} // verus!
