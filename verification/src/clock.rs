//! The capability of telling the time.
use vstd::prelude::*;
use std::time::Duration;
use std::time::SystemTime;

verus! {

/// A time in milliseconds since the start of 1970.
pub type Timestamp = u64;

/// A point in time of the system clock: `std::time::SystemTime`.
#[verifier::external_type_specification]
#[verifier::external_body]
pub struct ExSystemTime(SystemTime);

/// The start of 1970 as a point in time: the constant `std::time::UNIX_EPOCH`.
///
/// Nothing is said of the value, which verified code can only hand on.
#[verifier::external_body]
fn epoch_time() -> (r: SystemTime) {
    std::time::UNIX_EPOCH
}

/// The point in time that the system clock shows: `std::time::SystemTime::now`.
///
/// Nothing is said of the value.
#[verifier::external_body]
fn system_now() -> (r: SystemTime) {
    SystemTime::now()
}

/// The span from the start of 1970 to a point in time, `None` where the point lies before
/// 1970: `std::time::SystemTime::duration_since`.
///
/// Nothing is said of the span.
#[verifier::external_body]
fn since_epoch(time: &SystemTime) -> (r: Option<Duration>) {
    match time.duration_since(std::time::UNIX_EPOCH) {
        Ok(elapsed) => Some(elapsed),
        Err(_) => None,
    }
}

/// The whole milliseconds of a span: `std::time::Duration::as_millis`.
///
/// Nothing is said of the number.
#[verifier::external_body]
fn whole_millis(span: &Duration) -> (r: u128) {
    span.as_millis()
}

/// The whole nanoseconds of a span: `std::time::Duration::as_nanos`.
///
/// Nothing is said of the number.
#[verifier::external_body]
fn whole_nanos(span: &Duration) -> (r: u128) {
    span.as_nanos()
}

/// The span of the given milliseconds: `std::time::Duration::from_millis`.
///
/// Nothing is said of the value.
#[verifier::external_body]
fn span_of_millis(millis: u64) -> (r: Duration) {
    Duration::from_millis(millis)
}

/// The point in time that lies a span after the start of 1970, `None` where the system
/// cannot hold that point: `std::time::SystemTime::checked_add`.
///
/// Nothing is said of the point.
#[verifier::external_body]
fn after_epoch(span: Duration) -> (r: Option<SystemTime>) {
    std::time::UNIX_EPOCH.checked_add(span)
}

/// The point in time that lies the given milliseconds after the start of 1970; the start
/// of 1970 itself where the system cannot hold that point.
fn time_after_epoch(millis: u64) -> (r: SystemTime) {
    match after_epoch(span_of_millis(millis)) {
        Some(time) => time,
        None => epoch_time(),
    }
}

/// The milliseconds since the start of 1970 on the system clock, cut to 64 bits; 0 where
/// the clock stands before 1970.
fn millis_since_epoch() -> (r: u64) {
    let now = system_now();
    match since_epoch(&now) {
        Some(elapsed) => low_bits(whole_millis(&elapsed)),
        None => 0,
    }
}

/// The nanoseconds since the start of 1970 on the system clock; 0 where the clock stands
/// before 1970.
pub(crate) fn nanos_since_epoch() -> (r: u128) {
    let now = system_now();
    match since_epoch(&now) {
        Some(elapsed) => whole_nanos(&elapsed),
        None => 0,
    }
}

/// The lowest 64 bits of a number.
fn low_bits(number: u128) -> (r: u64)
    ensures
        r == number % 0x1_0000_0000_0000_0000,
{
    (number % 0x1_0000_0000_0000_0000u128) as u64
}

/// Something that tells the time.
pub trait Clock: Send + Sync {
    /// The time now.
    fn now(&self) -> (r: Timestamp);

    /// The time now as a point in time of the system clock; the start of 1970 where the
    /// system cannot hold a point so late.
    fn system_time(&self) -> (r: SystemTime) {
        time_after_epoch(self.now())
    }
}

/// The clock of the system.
#[derive(Debug, Clone, Copy, Default)]
pub struct SystemClock;

impl Clock for SystemClock {
    fn now(&self) -> (r: Timestamp) {
        millis_since_epoch()
    }
}

/// A clock that stands still.
#[derive(Debug, Clone, Copy)]
pub struct FixedClock {
    timestamp: Timestamp,
}

impl FixedClock {
    /// The time that the clock shows.
    pub closed spec fn time(self) -> u64 {
        self.timestamp
    }

    /// A clock that shows the given time.
    pub fn new(timestamp: Timestamp) -> (r: FixedClock)
        ensures
            r.time() == timestamp,
    {
        FixedClock { timestamp }
    }

    /// A clock that shows the start of 1970.
    pub fn epoch() -> (r: FixedClock)
        ensures
            r.time() == 0,
    {
        FixedClock { timestamp: 0 }
    }
}

impl Clock for FixedClock {
    fn now(&self) -> (r: Timestamp)
        ensures
            r == self.time(),
    {
        self.timestamp
    }
}

} // verus!
