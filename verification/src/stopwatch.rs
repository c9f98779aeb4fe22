//! A wall-clock stopwatch, for telemetry around the simulation loop.
//!
//! Readings of the clock are opaque: nothing is promised about them
//! beyond what the standard library documents, and no physics depends on
//! them.

use vstd::prelude::*;

verus! {

/// Declares std::time::Instant, an opaque reading of the monotonic
/// clock, so it can stand in fields and signatures.
#[verifier::external_type_specification]
#[verifier::external_body]
pub struct ExInstant(std::time::Instant);

/// Relies on Instant's derived Clone: `Instant` is `Copy`, so cloning
/// returns the same instant.
pub assume_specification[ <std::time::Instant as core::clone::Clone>::clone ](
    v: &std::time::Instant,
) -> (r: std::time::Instant)
    ensures
        r == *v,
;

/// Relies on std::time::Instant::now: an opaque reading of the monotonic
/// clock, about which nothing is promised.
#[verifier::external_body]
fn now_instant() -> std::time::Instant {
    std::time::Instant::now()
}

/// Relies on std::time::Instant::elapsed: the time since the instant.
/// Depends on the clock, so nothing is promised of the result.
#[verifier::external_body]
fn instant_elapsed(i: &std::time::Instant) -> core::time::Duration {
    i.elapsed()
}

/// Relies on core::time::Duration::as_nanos: the duration in whole
/// nanoseconds. The duration itself is opaque here, so nothing is
/// promised of the result.
#[verifier::external_body]
fn duration_nanos(d: &core::time::Duration) -> u128 {
    d.as_nanos()
}

/// A stopwatch: remembers the instant it was started or last reset.
#[derive(Debug, Clone)]
pub struct StopWatch {
    zero: std::time::Instant,
}

impl StopWatch {
    /// Start a stopwatch at the current instant.
    pub fn new() -> StopWatch {
        StopWatch { zero: now_instant() }
    }

    /// The nanoseconds elapsed since the start or the last reset; the
    /// stopwatch restarts at the current instant.
    pub fn reset(&mut self) -> u128 {
        let d = instant_elapsed(&self.zero);
        let t = duration_nanos(&d);
        self.zero = now_instant();
        t
    }

    /// The nanoseconds elapsed since the start or the last reset.
    pub fn time(&self) -> u128 {
        let d = instant_elapsed(&self.zero);
        duration_nanos(&d)
    }
}

} // verus!
