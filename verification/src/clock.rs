use vstd::prelude::*;
use std::time::{Duration, Instant, SystemTime};

verus! {

/// `std::time::SystemTime`, held opaque.
#[verifier::external_type_specification]
#[verifier::external_body]
pub struct ExSystemTime(std::time::SystemTime);

/// `std::time::Instant`, held opaque.
#[verifier::external_type_specification]
#[verifier::external_body]
pub struct ExInstant(std::time::Instant);

/// `std::time::Instant::now`: a reading of the monotonic clock. Nothing is
/// stated of it: it depends on the moment of the call.
#[verifier::external_body]
pub(crate) fn instant_now() -> (t: Instant) {
    Instant::now()
}

/// `Instant::elapsed`: the time since `t` on the monotonic clock. Nothing is
/// stated of it: it depends on the moment of the call.
#[verifier::external_body]
pub(crate) fn instant_elapsed(t: &Instant) -> (d: Duration) {
    t.elapsed()
}

/// A monotonic clock that counts milliseconds from the moment it was
/// started; stepping the wall clock does not move it. Liveness, lease expiry
/// and cache lifetimes are measured on it.
#[derive(Clone, Copy)]
pub struct MonotonicClock {
    origin: Instant,
}

impl MonotonicClock {
    /// A clock started now.
    pub fn start() -> (c: Self) {
        MonotonicClock { origin: instant_now() }
    }

    /// Milliseconds since the clock started, held at `u64::MAX` beyond it.
    /// Nothing is stated of the value: it is read from the clock.
    pub fn now_millis(&self) -> (ms: u64) {
        let ms = duration_as_millis(&instant_elapsed(&self.origin));
        if ms > 18446744073709551615u128 { u64::MAX } else { ms as u64 }
    }
}

/// `std::time::SystemTime::now`: the current wall-clock time. Nothing is
/// stated of it: it depends on the moment of the call.
#[verifier::external_body]
pub(crate) fn system_time_now() -> (t: SystemTime) {
    SystemTime::now()
}

/// `SystemTime::duration_since(UNIX_EPOCH)`, with `None` for a time before
/// the epoch. Nothing is stated of the result: the time value is opaque here.
#[verifier::external_body]
pub(crate) fn duration_since_epoch(t: &SystemTime) -> (d: Option<Duration>) {
    t.duration_since(std::time::UNIX_EPOCH).ok()
}

/// `Duration::as_millis`: the whole milliseconds of a duration. Nothing is
/// stated of the result: the duration is opaque here.
#[verifier::external_body]
pub(crate) fn duration_as_millis(d: &Duration) -> (ms: u128) {
    d.as_millis()
}

/// `Duration::from_millis`. Nothing is stated of the result: the duration is
/// opaque here.
#[verifier::external_body]
pub(crate) fn duration_from_millis(ms: u64) -> (d: Duration) {
    Duration::from_millis(ms)
}

/// `SystemTime::checked_add` on `UNIX_EPOCH`: the epoch plus `d`, or `None`
/// where the platform cannot represent that time. Nothing more is stated: the
/// time value is opaque here.
#[verifier::external_body]
pub(crate) fn epoch_checked_add(d: Duration) -> (t: Option<SystemTime>) {
    std::time::UNIX_EPOCH.checked_add(d)
}

/// `std::time::UNIX_EPOCH`.
#[verifier::external_body]
pub(crate) fn unix_epoch() -> (t: SystemTime) {
    std::time::UNIX_EPOCH
}

/// The time's whole milliseconds since the Unix epoch, or `None` for a time
/// before the epoch.
pub fn millis_since_unix_epoch(t: &SystemTime) -> (ms: Option<u128>) {
    match duration_since_epoch(t) {
        Some(d) => Some(duration_as_millis(&d)),
        None => None,
    }
}

/// The Unix epoch plus `ms` milliseconds; the epoch itself where the platform
/// cannot represent that time.
pub fn system_time_from_unix_millis(ms: u64) -> (t: SystemTime) {
    match epoch_checked_add(duration_from_millis(ms)) {
        Some(t) => t,
        None => unix_epoch(),
    }
}

/// Milliseconds since the Unix epoch, truncated to 64 bits; 0 for a time
/// before the epoch.
pub open spec fn epoch_millis_u64(ms: Option<u128>) -> u64 {
    match ms {
        Some(m) => m as u64,
        None => 0,
    }
}

/// Converts a reading of `millis_since_unix_epoch` to a 64-bit count.
pub fn epoch_millis_to_u64(ms: Option<u128>) -> (r: u64)
    ensures
        r == epoch_millis_u64(ms),
{
    match ms {
        Some(m) => m as u64,
        None => 0,
    }
}

/// The current wall-clock time in milliseconds since the Unix epoch. Nothing
/// is stated of the value: it is read from the clock.
pub fn unix_millis_now() -> (now: u64) {
    let t = system_time_now();
    epoch_millis_to_u64(millis_since_unix_epoch(&t))
}

} // verus!
