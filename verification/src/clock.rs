//! Trusted boundary to the wall clock, used only to bound how long one
//! scheduler invocation runs. Nothing is assumed of the values read:
//! every caller must make progress whatever the clock returns.

use vstd::prelude::*;

verus! {

#[verifier::external_type_specification]
#[verifier::external_body]
pub struct ExInstant(std::time::Instant);

/// Relies on std::time::Instant::now. The value depends on the clock,
/// so nothing is assumed of it.
#[verifier::external_body]
pub(crate) fn clock_now() -> std::time::Instant {
    std::time::Instant::now()
}

/// Relies on std::time::Instant::elapsed: the milliseconds since
/// `start`, saturated into 64 bits. The value depends on the clock, so
/// nothing is assumed of it.
#[verifier::external_body]
pub(crate) fn elapsed_ms(start: &std::time::Instant) -> u64 {
    let ms = start.elapsed().as_millis();
    if ms > u64::MAX as u128 {
        u64::MAX
    } else {
        ms as u64
    }
}

} // verus!
