//! The time that passes between batches.

use std::time::Instant;
use vstd::prelude::*;

verus! {

/// A reading of the clock of the standard library.
#[verifier::external_type_specification]
#[verifier::external_body]
pub struct ExInstant(Instant);

/// Nothing is claimed of what the clock shows.
pub assume_specification[ Instant::now ]() -> Instant
;

/// Calls `Instant::elapsed` and gives the duration in nanoseconds.
///
/// Nothing is claimed of what the clock shows.
#[verifier::external_body]
fn elapsed_nanos(since: &Instant) -> (nanos: u128) {
    since.elapsed().as_nanos()
}

/// `now` is something that the clock can show when it is read.
pub open spec fn clock_can_show(now: Instant) -> bool {
    call_ensures(Instant::now, (), now)
}

/// `nanos` is something that the clock can show when it is asked how many nanoseconds have passed
/// since `since`.
pub closed spec fn clock_can_elapse(since: Instant, nanos: u128) -> bool {
    call_ensures(elapsed_nanos, (&since,), nanos)
}

/// What the clock can show is exactly what it gives when it is asked, in nanoseconds.
proof fn law_elapsed_is_what_the_clock_gives(since: Instant, nanos: u128)
    ensures
        clock_can_elapse(since, nanos) <==> call_ensures(elapsed_nanos, (&since,), nanos),
{
}

/// Reads how many nanoseconds have passed since `since`.
pub(crate) fn nanos_since(since: &Instant) -> (nanos: u128)
    ensures
        clock_can_elapse(*since, nanos),
{
    elapsed_nanos(since)
}

} // verus!
