//! Measuring how long a computation takes, on the monotonic clock.

use std::time::Instant;
use vstd::prelude::*;

verus! {

/// A point on the monotonic clock of the standard library. Nothing is known
/// of what it holds.
#[verifier::external_type_specification]
#[verifier::external_body]
pub struct ExInstant(std::time::Instant);

/// `Instant::now` reads the monotonic clock. Nothing is claimed of the
/// instant it returns.
pub assume_specification[ std::time::Instant::now ]() -> (now: std::time::Instant)
;

/// `Instant::elapsed` gives the time that passed since the instant was
/// taken. Nothing is claimed of the duration.
pub assume_specification[ std::time::Instant::elapsed ](start: &std::time::Instant) -> (elapsed:
    std::time::Duration)
;

/// `Duration::as_millis` gives the whole milliseconds of a duration.
/// Nothing is claimed of the number.
pub assume_specification[ std::time::Duration::as_millis ](duration: &std::time::Duration) -> (millis:
    u128)
;

/// A count of milliseconds that fits the width used in reports: the count
/// itself, or the largest value where it is beyond it.
pub open spec fn saturated(millis: u128) -> u64 {
    if millis > u64::MAX {
        u64::MAX
    } else {
        millis as u64
    }
}

/// Narrows a count of milliseconds to the width used in reports.
pub fn saturate_millis(millis: u128) -> (narrowed: u64)
    ensures
        narrowed == saturated(millis),
{
    if millis > 0xffff_ffff_ffff_ffffu128 {
        u64::MAX
    } else {
        millis as u64
    }
}

/// Runs `f` once and returns what it returned, with the time it took in
/// milliseconds. The time comes from the monotonic clock, so nothing is
/// promised of it but that it is a number.
pub fn measure<T, F: FnOnce() -> T>(f: F) -> (r: (T, u64))
    requires
        f.requires(()),
    ensures
        f.ensures((), r.0),
{
    let start = Instant::now();
    let value = f();
    let elapsed = start.elapsed();
    (value, saturate_millis(elapsed.as_millis()))
}

} // verus!
