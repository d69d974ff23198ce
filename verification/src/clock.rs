//! The monotonic clock, read through `std::time::Instant`.
//!
//! Readings depend on the machine's clock, so nothing is promised of them; the
//! logic that uses them takes elapsed times as arguments where it can.

use vstd::prelude::*;
use std::time::{Duration, Instant};
use crate::scheduler::{duration_nanos, duration_of};

verus! {

#[verifier::external_type_specification]
#[verifier::external_body]
pub struct ExInstant(Instant);

/// The duration of `ms` milliseconds: the whole seconds in them and the
/// nanoseconds of the milliseconds left over, as `Duration::new` builds it.
pub open spec fn millis_as_duration(ms: u64) -> Duration {
    duration_of(ms / 1000, ((ms % 1000) * 1_000_000) as u32)
}

/// Calls `Duration::from_millis`: the duration of that many milliseconds, which is
/// the one `Duration::new` builds from the whole seconds and the nanoseconds left
/// over.
#[verifier::external_body]
pub(crate) fn duration_from_millis(ms: u64) -> (d: Duration)
    ensures
        d == millis_as_duration(ms),
        duration_nanos(d) == ms * 1_000_000,
{
    Duration::from_millis(ms)
}

/// Calls `Instant::now`. Nothing is promised of the reading: it depends on the clock.
#[verifier::external_body]
pub(crate) fn instant_now() -> (i: Instant) {
    Instant::now()
}

/// Calls `Instant::elapsed` and gives the time in nanoseconds. Nothing is promised of
/// the value: it depends on the clock.
#[verifier::external_body]
pub(crate) fn elapsed_nanos(i: &Instant) -> (n: u128) {
    i.elapsed().as_nanos()
}

/// Calls `Instant::elapsed`. Nothing is promised of the value: it depends on the clock.
#[verifier::external_body]
pub(crate) fn elapsed_since(i: &Instant) -> (d: Duration) {
    i.elapsed()
}

/// Calls `Instant::duration_since` (which saturates at zero) and gives the time in
/// nanoseconds. Nothing is promised of the value: instants are clock readings.
#[verifier::external_body]
pub(crate) fn nanos_between(earlier: &Instant, later: &Instant) -> (n: u128) {
    later.duration_since(*earlier).as_nanos()
}

} // verus!
