//! The clock of the machine.

use vstd::prelude::*;

verus! {

#[verifier::external_type_specification]
#[verifier::external_body]
pub struct ExInstant(std::time::Instant);

/// `std::time::Instant::now`. The result is whatever the clock says.
#[verifier::external_body]
pub(crate) fn instant_now() -> std::time::Instant {
    std::time::Instant::now()
}

/// `std::time::Instant::duration_since`. The result depends on the clock
/// readings alone, of which nothing is known.
#[verifier::external_body]
pub(crate) fn instant_duration_since(later: &std::time::Instant, earlier: &std::time::Instant) -> std::time::Duration {
    later.duration_since(*earlier)
}

/// `std::time::Duration::subsec_nanos`: the part of the duration below one second.
#[verifier::external_body]
pub(crate) fn duration_subsec_nanos(duration: &std::time::Duration) -> u32 {
    duration.subsec_nanos()
}

} // verus!
