//! The monotonic clock that stamps detector events.
use vstd::prelude::*;

verus! {

#[verifier::external_type_specification]
#[verifier::external_body]
pub struct ExInstant(std::time::Instant);

/// Relies on std::time::Instant::now: a reading of the monotonic clock.
/// Nothing is promised of the value.
pub assume_specification[ std::time::Instant::now ]() -> std::time::Instant;

/// Relies on std::time::Instant::elapsed: the time since the reading. It
/// depends on when it is called, so nothing is promised of it.
pub assume_specification[ std::time::Instant::elapsed ](i: &std::time::Instant) -> core::time::Duration;

/// Relies on std::time::Duration::as_millis: the whole milliseconds of a
/// duration, here cut to 64 bits.
#[verifier::external_body]
fn whole_millis(d: core::time::Duration) -> (r: u64) {
    d.as_millis() as u64
}

/// Whole milliseconds since `start`.
pub(crate) fn millis_since(start: &std::time::Instant) -> (r: u64) {
    whole_millis(start.elapsed())
}

} // verus!
