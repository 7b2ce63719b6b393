//! The clock of the machine, as far as the library reads it.

use vstd::prelude::*;
use std::time::Duration;
use std::time::Instant;

verus! {

/// `Instant` of std: a moment. The library only hands it on.
#[verifier::external_type_specification]
#[verifier::external_body]
pub struct ExInstant(Instant);

/// `Instant::now` of std: the present moment. Nothing is claimed of it.
#[verifier::external_body]
pub(crate) fn instant_now() -> Instant {
    Instant::now()
}

/// `Instant::saturating_duration_since` of std: the time that has passed from
/// `earlier` to `later`, or no time if `earlier` is the later of the two.
/// Nothing is claimed of it.
#[verifier::external_body]
pub(crate) fn time_between(later: &Instant, earlier: &Instant) -> Duration {
    later.saturating_duration_since(*earlier)
}

/// `Duration::as_nanos` of std: the whole nanoseconds of a span of time.
/// Nothing is claimed of the number.
#[verifier::external_body]
pub(crate) fn whole_nanos(span: &Duration) -> u128 {
    span.as_nanos()
}

/// `Duration::as_millis` of std: the whole milliseconds of a span of time.
/// Nothing is claimed of the number.
#[verifier::external_body]
pub(crate) fn whole_millis(span: &Duration) -> u128 {
    span.as_millis()
}

} // verus!
