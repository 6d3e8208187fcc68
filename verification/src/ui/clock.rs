//! Moments, in nanoseconds since some moment in the past.

use vstd::prelude::*;

verus! {

/// A second.
pub const SECOND: u64 = 1_000_000_000;

/// How long ago `since` was at `now`, in nanoseconds; nothing where it is still
/// to come.
pub open spec fn age(now: u64, since: u64) -> int {
    if now > since {
        now - since
    } else {
        0
    }
}

/// How long ago `since` was at `now`, in nanoseconds; nothing where it is still
/// to come.
pub fn age_of(now: u64, since: u64) -> (d: u64)
    ensures
        d == age(now, since),
{
    if now > since {
        now - since
    } else {
        0
    }
}

} // verus!
