//! The monotonic clock that a popup is anchored to.

use std::time::{Duration, Instant};
use vstd::prelude::*;

verus! {

/// A moment on the monotonic clock. Nothing is known of its inside.
#[verifier::external_type_specification]
#[verifier::external_body]
pub struct ExInstant(Instant);

/// `Instant::now`: the present moment. Nothing is claimed of it.
#[verifier::external_body]
pub(crate) fn now() -> Instant {
    Instant::now()
}

/// `Instant::elapsed`: the time that has passed since `anchor`. It depends
/// on when it is asked, so nothing is claimed of it.
#[verifier::external_body]
pub(crate) fn time_since(anchor: &Instant) -> Duration {
    anchor.elapsed()
}

/// `Duration::as_nanos`: the span in whole nanoseconds. A span is opaque
/// here, so nothing is claimed of the number.
#[verifier::external_body]
pub(crate) fn whole_nanos(span: &Duration) -> u128 {
    span.as_nanos()
}

/// The nanoseconds as a `u64`, and the largest `u64` where they do not fit.
pub fn saturate(nanos: u128) -> (r: u64)
    ensures
        nanos <= u64::MAX ==> r == nanos,
        nanos > u64::MAX ==> r == u64::MAX,
{
    if nanos > u64::MAX as u128 {
        u64::MAX
    } else {
        nanos as u64
    }
}

} // verus!
