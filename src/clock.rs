//! The clocks: the system clock, read as nanoseconds since the Unix epoch,
//! and the monotonic clock, read as nanoseconds since an origin.
use std::time::{Instant, SystemTime};
use vstd::prelude::*;

verus! {

#[verifier::external_type_specification]
#[verifier::external_body]
pub struct ExSystemTime(SystemTime);

/// Relies on `SystemTime::now`: a reading of the system clock, of which
/// nothing is known.
#[verifier::external_body]
fn system_now() -> SystemTime {
    SystemTime::now()
}

/// Relies on `SystemTime::duration_since` with `UNIX_EPOCH`: the time from the
/// epoch to `t` in nanoseconds, or `None` when `t` lies before the epoch.
#[verifier::external_body]
fn nanos_since_epoch(t: &SystemTime) -> Option<u128> {
    t.duration_since(std::time::UNIX_EPOCH).ok().map(|d| d.as_nanos())
}

/// Nanoseconds from the Unix epoch to now, or 0 when the clock reads earlier.
pub fn now_nanos() -> u128 {
    let now = system_now();
    match nanos_since_epoch(&now) {
        Some(n) => n,
        None => 0,
    }
}

} // verus!

verus! {

#[verifier::external_type_specification]
#[verifier::external_body]
pub struct ExInstant(Instant);

/// Relies on `Instant::now`: a reading of the monotonic clock, of which
/// nothing is known.
#[verifier::external_body]
pub fn instant_now() -> Instant {
    Instant::now()
}

/// Relies on `Instant::elapsed`: the time from `origin` to now on the
/// monotonic clock, in nanoseconds.
#[verifier::external_body]
pub fn nanos_since(origin: &Instant) -> u128 {
    origin.elapsed().as_nanos()
}

} // verus!
