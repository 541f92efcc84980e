//! Points in time and spans of time.

use vstd::prelude::*;

verus! {

/// A span of time in nanoseconds, or a point in time as the nanoseconds since a fixed origin.
pub type Nanos = u128;

/// One millisecond.
pub const NANOS_PER_MILLI: Nanos = 1_000_000;

/// One second.
pub const NANOS_PER_SEC: Nanos = 1_000_000_000;

/// The start of the Unix epoch, as a point on the wall clock.
pub const UNIX_EPOCH: Nanos = 0;

/// How much time has passed at `now` since `since`; nothing if `since` lies in the future.
pub open spec fn elapsed_spec(since: Nanos, now: Nanos) -> Nanos {
    if now >= since {
        (now - since) as Nanos
    } else {
        0
    }
}

/// The time from `since` to `now`, zero where `since` lies after `now`.
pub fn elapsed(since: Nanos, now: Nanos) -> (span: Nanos)
    ensures
        span == elapsed_spec(since, now),
{
    if now >= since {
        now - since
    } else {
        0
    }
}

/// The time that has passed is what leads from the earlier point to the later one, and none where
/// the order is the other way round.
pub proof fn elapsed_leads_to_now(since: Nanos, now: Nanos)
    ensures
        since <= now ==> since + elapsed_spec(since, now) == now,
        now <= since ==> elapsed_spec(since, now) == 0,
{
}

} // verus!
