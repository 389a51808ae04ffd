//! Clocks.

use vstd::prelude::*;

verus! {

/// `std::time::Instant`, an opaque reading of the monotonic clock.
#[verifier::external_type_specification]
#[verifier::external_body]
pub struct ExInstant(std::time::Instant);

/// `Instant::now` reads the monotonic clock.
#[verifier::external_body]
pub(crate) fn start() -> (origin: std::time::Instant) {
    std::time::Instant::now()
}

/// `Instant::elapsed`, in nanoseconds.
#[verifier::external_body]
pub(crate) fn nanos_since(origin: &std::time::Instant) -> (ns: u64) {
    origin.elapsed().as_nanos() as u64
}

/// `SystemTime::now` as whole seconds since the Unix epoch; a clock set before it counts as zero.
#[verifier::external_body]
pub(crate) fn unix_seconds() -> (secs: u64) {
    std::time::SystemTime::now()
        .duration_since(std::time::UNIX_EPOCH)
        .unwrap_or_default()
        .as_secs()
}

} // verus!
