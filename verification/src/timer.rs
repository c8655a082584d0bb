//! Wall-clock time for the pace of operators and generations.

use vstd::prelude::*;

verus! {

/// `std::time::Instant`, a moment on a clock that never runs backwards.
/// Verus sees nothing inside it.
#[verifier::external_type_specification]
#[verifier::external_body]
pub struct ExInstant(std::time::Instant);

/// `std::time::Instant::now`: the present moment. Nothing is known of it.
#[verifier::external_body]
fn instant_now() -> std::time::Instant {
    std::time::Instant::now()
}

/// `std::time::Instant::elapsed`: the time since `start`. Nothing is known of it.
#[verifier::external_body]
fn instant_elapsed(start: &std::time::Instant) -> std::time::Duration {
    start.elapsed()
}

/// `std::time::Duration::as_millis`: the whole milliseconds of a duration.
/// Nothing is stated of it.
#[verifier::external_body]
fn duration_as_millis(duration: &std::time::Duration) -> u128 {
    duration.as_millis()
}

/// A stopwatch that runs from its creation.
pub struct Timer {
    start: std::time::Instant,
}

impl Timer {
    /// Starts a stopwatch.
    pub fn start() -> Timer {
        Timer { start: instant_now() }
    }

    /// The whole milliseconds since the start, or the largest `u64` where
    /// they do not fit in one.
    pub fn elapsed_millis(&self) -> u64 {
        let elapsed = instant_elapsed(&self.start);
        saturate(duration_as_millis(&elapsed))
    }
}

/// The value as a `u64`, or the largest `u64` where it does not fit.
pub fn saturate(value: u128) -> (narrow: u64)
    ensures
        narrow == (if value <= u64::MAX {
            value as u64
        } else {
            u64::MAX
        }),
{
    if value <= u64::MAX as u128 {
        value as u64
    } else {
        u64::MAX
    }
}

} // verus!
