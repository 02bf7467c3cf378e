use vstd::prelude::*;

verus! {

/// The verified logic works on plain millisecond counts. The opaque
/// `std::time::Instant` only anchors those counts to the process clock:
/// each component records one instant at construction and measures every
/// later reading against it.
#[verifier::external_type_specification]
#[verifier::external_body]
pub struct ExInstant(std::time::Instant);

/// Relies on `std::time::Instant::now`: a reading of the monotonic clock.
/// The value depends on when the call runs, so nothing is assumed of it.
pub assume_specification[ std::time::Instant::now ]() -> std::time::Instant;

/// Relies on `std::time::Instant::elapsed`: the span between `this` and the
/// clock reading taken during the call. The value depends on when the call
/// runs, so nothing is assumed of it.
pub assume_specification[ std::time::Instant::elapsed ](
    this: &std::time::Instant,
) -> core::time::Duration;

/// Relies on `core::time::Duration::as_millis`: the span in whole
/// milliseconds. The span itself came from the clock, so nothing is assumed
/// of the value.
pub assume_specification[ core::time::Duration::as_millis ](this: &core::time::Duration) -> u128;

} // verus!
