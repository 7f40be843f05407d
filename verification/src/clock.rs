//! Clocks.

use std::time::Duration;
use std::time::Instant;
use std::time::SystemTime;
use vstd::prelude::*;

verus! {

/// Nanoseconds in a second.
pub const NANOS_PER_SEC: u64 = 1_000_000_000;

/// Nanoseconds in a millisecond.
pub const NANOS_PER_MILLI: u64 = 1_000_000;

/// `std::time::Instant`, a reading of the monotonic clock.
#[verifier::external_type_specification]
#[verifier::external_body]
pub struct ExInstant(std::time::Instant);

/// `std::time::SystemTime`, a reading of the time of day.
#[verifier::external_type_specification]
#[verifier::external_body]
pub struct ExSystemTime(std::time::SystemTime);

/// `std::time::Instant::now`. Nothing is claimed of the reading.
#[verifier::external_body]
fn instant_now() -> (r: Instant) {
    Instant::now()
}

/// `std::time::Instant::elapsed`. Nothing is claimed of how much time has passed.
#[verifier::external_body]
fn time_since(start: &Instant) -> (r: Duration) {
    start.elapsed()
}

/// `std::time::SystemTime::now`. Nothing is claimed of the reading.
#[verifier::external_body]
fn system_time_now() -> (r: SystemTime) {
    SystemTime::now()
}

/// `std::time::SystemTime::duration_since` the Unix epoch, where the time is not
/// before it. Nothing is claimed of how much time that is.
#[verifier::external_body]
fn time_since_epoch(time: &SystemTime) -> (r: Option<Duration>) {
    time.duration_since(SystemTime::UNIX_EPOCH).ok()
}

/// `std::time::Duration::as_nanos`. Nothing is claimed of how long the span is.
#[verifier::external_body]
fn whole_nanos(span: &Duration) -> (r: u128) {
    span.as_nanos()
}

/// A number of nanoseconds, without the bits that do not fit.
pub fn low_nanos(nanos: u128) -> (r: u64)
    ensures
        r == nanos % 0x1_0000_0000_0000_0000u128,
{
    let r: u64 = #[verifier::truncate] (nanos as u64);
    assert(nanos as u64 == nanos % 0x1_0000_0000_0000_0000u128) by (bit_vector);
    r
}

/// What a time of day that lies so many nanoseconds behind the Unix epoch reads
/// as. One before the epoch, of which there is no such number, reads as zero.
pub fn epoch_nanos(nanos: Option<u128>) -> (r: u64)
    ensures
        r == (match nanos {
            Some(n) => n % 0x1_0000_0000_0000_0000u128,
            None => 0,
        }),
{
    match nanos {
        Some(n) => low_nanos(n),
        None => 0,
    }
}

/// The time of day, read as [`epoch_nanos`] says. Which time that is rests with
/// the machine's clock.
pub(crate) fn now_nanos() -> (r: u64) {
    match time_since_epoch(&system_time_now()) {
        Some(span) => epoch_nanos(Some(whole_nanos(&span))),
        None => epoch_nanos(None),
    }
}

/// A monotonic clock that counts nanoseconds from when it was made.
pub struct Clock {
    start: Instant,
}

impl Clock {
    /// A clock that starts now. Which time that is rests with the machine.
    pub fn new() -> (r: Self) {
        Clock { start: instant_now() }
    }

    /// Nanoseconds since the clock was made, read as [`low_nanos`] says. How many
    /// those are rests with the machine's clock.
    pub fn now(&self) -> (r: u64) {
        let span = time_since(&self.start);
        low_nanos(whole_nanos(&span))
    }
}

} // verus!
