//! Wall-clock measurements. Nothing is proved of them: they depend on time.
use std::time::{Duration, Instant};
use vstd::prelude::*;

verus! {

#[verifier::external_type_specification]
#[verifier::external_body]
pub struct ExInstant(Instant);

/// `Instant::now`: the current time. Nothing is stated of it.
#[verifier::external_body]
pub(crate) fn now() -> Instant {
    Instant::now()
}

/// `Instant::elapsed`: the time since `start`. Nothing is stated of it.
#[verifier::external_body]
pub(crate) fn elapsed(start: &Instant) -> Duration {
    start.elapsed()
}

/// `Duration::as_nanos`: the whole nanoseconds in a duration. Nothing is
/// stated of it beyond its type.
#[verifier::external_body]
pub(crate) fn nanos(d: &Duration) -> u128 {
    d.as_nanos()
}

/// Nanoseconds since `start`.
pub(crate) fn nanos_since(start: &Instant) -> u128 {
    let d = elapsed(start);
    nanos(&d)
}

} // verus!
