//! A monotonic clock for time-dependent interaction rules (typeahead windows,
//! undo coalescing). Readings are nanoseconds since the clock was created.
use vstd::prelude::*;

verus! {

#[verifier::external_type_specification]
#[verifier::external_body]
pub struct ExInstant(web_time::Instant);

/// Calls `web_time::Instant::now`. Nothing is stated of the reading.
#[verifier::external_body]
fn instant_now() -> (now: web_time::Instant) {
    web_time::Instant::now()
}

/// Calls `web_time::Instant::elapsed` and converts the duration to whole
/// nanoseconds. The elapsed time depends on when the call is made, so nothing
/// is stated of it.
#[verifier::external_body]
fn elapsed_nanos(start: &web_time::Instant) -> (nanos: u128) {
    start.elapsed().as_nanos()
}

/// A monotonic clock started at construction.
pub struct Clock {
    start: web_time::Instant,
}

impl Clock {
    /// Starts a clock at the current instant.
    pub fn new() -> (clock: Clock) {
        Clock { start: instant_now() }
    }

    /// Nanoseconds since the clock started, saturated at `u64::MAX` (see
    /// `saturated_nanos`).
    pub fn nanos(&self) -> (nanos: u64) {
        saturated_nanos(elapsed_nanos(&self.start))
    }
}

/// An elapsed time in nanoseconds as a `u64`, saturated at `u64::MAX`.
pub fn saturated_nanos(elapsed: u128) -> (nanos: u64)
    ensures
        nanos == if elapsed > u64::MAX {
            u64::MAX as int
        } else {
            elapsed as int
        },
{
    if elapsed > 18446744073709551615u128 {
        18446744073709551615u64
    } else {
        elapsed as u64
    }
}

} // verus!
