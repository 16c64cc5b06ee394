use vstd::prelude::*;
use core::time::Duration;
use instant::Instant;

verus! {

/// A point in time, from the `instant` crate.
#[verifier::external_type_specification]
#[verifier::external_body]
pub struct ExInstant(instant::Instant);

/// Calls `instant::Instant::now`. What it returns depends on the clock, so
/// nothing is stated of it.
#[verifier::external_body]
pub(crate) fn instant_now() -> (r: Instant) {
    Instant::now()
}

/// Calls `instant::Instant::elapsed`: the time gone by since `i`. It depends
/// on the clock, so nothing is stated of it.
#[verifier::external_body]
pub(crate) fn instant_elapsed(i: &Instant) -> (r: Duration) {
    i.elapsed()
}

/// Calls `Duration::as_nanos`. `Duration` is opaque here, so nothing is
/// stated of the number; the durations this crate reasons about are held as
/// nanoseconds from the start.
#[verifier::external_body]
pub(crate) fn duration_as_nanos(d: &Duration) -> (r: u128) {
    d.as_nanos()
}

/// The nanoseconds gone by since `i`.
pub(crate) fn elapsed_nanos(i: &Instant) -> (r: u128) {
    let d = instant_elapsed(i);
    duration_as_nanos(&d)
}

} // verus!
