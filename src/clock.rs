//! Points in time.
use vstd::prelude::*;

verus! {

/// A point in time, in milliseconds since 1970-01-01 00:00:00 UTC; negative before then.
/// The library never reads a clock: callers pass the time an operation happens at.
#[derive(Debug, Clone, Copy, PartialEq, Eq, Hash, PartialOrd, Ord, Structural)]
pub struct Timestamp {
    pub millis: i64,
}

} // verus!
