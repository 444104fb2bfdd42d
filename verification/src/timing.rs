//! Timing of a single call.

use std::time::Duration;
use std::time::Instant;
use vstd::prelude::*;

verus! {

/// `std::time::Instant`, a reading of the monotonic clock, carried as an
/// opaque value.
#[verifier::external_type_specification]
#[verifier::external_body]
pub struct ExInstant(Instant);

/// `Instant::now`: a reading of the monotonic clock. Nothing is known of it
/// in advance.
#[verifier::external_body]
fn now() -> Instant {
    Instant::now()
}

/// `Instant::elapsed`: the time that has passed since the reading. Nothing
/// is known of it in advance.
#[verifier::external_body]
fn elapsed_since(start: &Instant) -> Duration {
    start.elapsed()
}

/// Calls `func` once and returns what it returned, together with the time
/// that the call took.
pub fn time<T, F: FnOnce() -> T>(func: F) -> (timed: (T, Duration))
    requires
        func.requires(()),
    ensures
        func.ensures((), timed.0),
{
    let start = now();
    let t = func();
    (t, elapsed_since(&start))
}

} // verus!
