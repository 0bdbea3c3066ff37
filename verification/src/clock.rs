//! Time as the cache sees it: nanoseconds on a monotonic clock, counted from
//! a starting point that each cache fixes when it is built.

use std::time::Duration;
use std::time::Instant;
use vstd::prelude::*;

verus! {

/// `std::time::Instant`, a point on the monotonic clock. Nothing is known of
/// what a value holds.
#[verifier::external_type_specification]
#[verifier::external_body]
pub struct ExInstant(Instant);

/// `Instant::now` reads the monotonic clock. Nothing is claimed of the
/// reading.
pub assume_specification[ Instant::now ]() -> Instant;

/// `Instant::elapsed` measures the time since the instant was taken. Nothing
/// is claimed of the measurement.
pub assume_specification[ Instant::elapsed ](start: &Instant) -> Duration;

/// `Duration::as_nanos` gives a duration in nanoseconds. Nothing is claimed
/// of the number.
pub assume_specification[ Duration::as_nanos ](span: &Duration) -> u128;

/// Nanoseconds in a second.
pub const NANOS_PER_SEC: u128 = 1_000_000_000;

/// The nanoseconds from `then` to `now`; none where `now` is not later.
pub open spec fn age(then: u128, now: u128) -> nat {
    if now >= then {
        (now - then) as nat
    } else {
        0
    }
}

/// Whether more than `ttl` seconds have passed from `then` to `now`. Exactly
/// `ttl` seconds are not more.
pub open spec fn older_than(then: u128, now: u128, ttl: u64) -> bool {
    age(then, now) > ttl * NANOS_PER_SEC
}

/// Decides `older_than`.
pub fn is_older_than(then: u128, now: u128, ttl: u64) -> (older: bool)
    ensures
        older == older_than(then, now, ttl),
{
    now > then && now - then > (ttl as u128) * NANOS_PER_SEC
}

/// The reading of the clock that started at `start`, in nanoseconds.
pub(crate) fn read(start: &Instant) -> u128 {
    start.elapsed().as_nanos()
}

} // verus!
