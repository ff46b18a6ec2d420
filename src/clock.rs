use vstd::prelude::*;

verus! {

#[verifier::external_type_specification]
#[verifier::external_body]
pub struct ExInstant(std::time::Instant);

/// Relies on `std::time::Instant::now`: a reading of the monotonic clock.
/// Nothing is assumed of the reading.
pub assume_specification[ std::time::Instant::now ]() -> std::time::Instant;

/// Relies on `std::time::Instant::elapsed`: the time since an earlier
/// reading (zero if the clock appears to have gone back). Nothing is assumed
/// of the duration.
pub assume_specification[ std::time::Instant::elapsed ](
    i: &std::time::Instant,
) -> core::time::Duration;

/// Relies on `core::time::Duration::as_secs`: the whole seconds of a duration.
pub assume_specification[ core::time::Duration::as_secs ](d: &core::time::Duration) -> u64;

} // verus!
