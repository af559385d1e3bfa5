//! The monotonic clock that the caret blink and caret resets read.

use std::time::Instant;

use vstd::prelude::*;

verus! {

/// `std::time::Instant`, a point on the monotonic clock, carried through as it is.
#[verifier::external_type_specification]
#[verifier::external_body]
pub struct ExInstant(Instant);

/// Calls `Instant::now`. What it returns depends on the time of the call, so nothing is
/// stated of it.
#[verifier::external_body]
pub fn now() -> Instant {
    Instant::now()
}

/// Calls `Instant::elapsed` on `since` and takes the result in whole milliseconds
/// (`Duration::as_millis`). The result depends on the time of the call, so nothing is
/// stated of it.
#[verifier::external_body]
pub fn elapsed_millis(since: &Instant) -> u128 {
    since.elapsed().as_millis()
}

} // verus!
