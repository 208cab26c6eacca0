use vstd::prelude::*;
use std::time::{Duration, Instant};

use crate::text::{format_hms, hms_text};

verus! {

#[verifier::external_type_specification]
#[verifier::external_body]
pub struct ExInstant(Instant);

/// `Instant::now`: a reading of the monotonic clock. It depends on the time of
/// the call, so nothing is promised of it.
#[verifier::external_body]
fn instant_now() -> (t: Instant) {
    Instant::now()
}

/// `Instant::elapsed`: the time gone by since `start` on the monotonic clock.
/// It depends on the time of the call, so nothing is promised of it.
#[verifier::external_body]
fn elapsed_since(start: &Instant) -> (d: Duration) {
    start.elapsed()
}

/// `SystemTime::elapsed` on `UNIX_EPOCH`: the time since the Unix epoch on
/// the system clock (zero for a clock set before the epoch). It depends on
/// the time of the call, so nothing is promised of it.
#[verifier::external_body]
fn since_unix_epoch() -> (d: Duration) {
    match std::time::UNIX_EPOCH.elapsed() {
        Ok(d) => d,
        Err(_) => Duration::ZERO,
    }
}

/// `Duration::as_nanos`, the whole duration in nanoseconds, brought to 64 bits.
/// Verus sees nothing inside a `Duration`, so the result is not tied to `d` here.
#[verifier::external_body]
fn nanos_in(d: &Duration) -> (n: u64) {
    d.as_nanos() as u64
}

/// `Duration::as_secs`, the whole seconds of the duration. Verus sees nothing
/// inside a `Duration`, so the result is not tied to `d` here.
#[verifier::external_body]
fn secs_in(d: &Duration) -> (n: u64) {
    d.as_secs()
}

/// Nanoseconds in one second.
pub const NANOS_PER_SEC: u64 = 1_000_000_000;

/// The server's monotonic clock, against which every time of the anticheat
/// (windows, cooldowns, heard lists) is measured.
pub struct Clock {
    pub started: Instant,
}

impl Clock {
    /// Starts a clock at the current time.
    pub fn start() -> (c: Clock) {
        Clock { started: instant_now() }
    }

    /// Nanoseconds since the clock's origin, on the monotonic clock. The
    /// value depends on the time of the call, so nothing is promised of it
    /// beyond its type.
    pub fn now_nanos(&self) -> (t: u64) {
        let d = elapsed_since(&self.started);
        nanos_in(&d)
    }
}

/// Seconds since the Unix epoch, on the system clock. The value depends on
/// the time of the call, so nothing is promised of it beyond its type.
pub fn unix_secs_now() -> (t: u64) {
    let d = since_unix_epoch();
    secs_in(&d)
}

/// The current UTC time of day as `HH:MM:SS`, on the system clock.
pub fn hms_now() -> (s: String)
    ensures
        exists|secs: u64| s@ == hms_text(secs as nat),
{
    format_hms(unix_secs_now())
}

} // verus!
