use std::time::{Duration, SystemTime, SystemTimeError, UNIX_EPOCH};
use vstd::prelude::*;

verus! {

#[verifier::external_type_specification]
#[verifier::external_body]
pub struct ExSystemTime(SystemTime);

#[verifier::external_type_specification]
#[verifier::external_body]
pub struct ExSystemTimeError(SystemTimeError);

/// Calls `SystemTime::now`, which reads the system clock. Nothing is stated
/// of the time it gives: it depends on the moment of the call.
#[verifier::external_body]
fn system_now() -> SystemTime {
    SystemTime::now()
}

/// Calls `SystemTime::duration_since` with `UNIX_EPOCH`: the time since the
/// Unix epoch, or an error when `t` lies before it. Nothing is stated of
/// which comes back, since that rests on the clock.
#[verifier::external_body]
fn since_unix_epoch(t: &SystemTime) -> Result<Duration, SystemTimeError> {
    t.duration_since(UNIX_EPOCH)
}

/// Calls `Duration::as_micros`, the whole microseconds of `d`. Nothing is
/// stated of the number: `d` itself is a reading of the clock.
#[verifier::external_body]
fn whole_micros(d: &Duration) -> u128 {
    d.as_micros()
}

/// A number read off the system clock. Only a reading of the clock makes
/// one: nothing outside this module can build it, so a value held in one
/// came from the clock.
pub struct ClockReading {
    micros: usize,
}

impl View for ClockReading {
    type V = usize;

    closed spec fn view(&self) -> usize {
        self.micros
    }
}

impl ClockReading {
    /// The number that was read.
    pub fn value(&self) -> (v: usize)
        ensures
            v == self@,
    {
        self.micros
    }
}

/// The numbers of a list of clock readings.
pub open spec fn reading_values(readings: Seq<ClockReading>) -> Seq<usize> {
    readings.map_values(|r: ClockReading| r@)
}

/// Reads the system clock: the microseconds since the Unix epoch, cut down
/// to a `usize`, or 0 when the clock stands before the epoch. Any value may
/// come back.
pub(crate) fn clock_micros() -> ClockReading {
    let now = system_now();
    let micros = match since_unix_epoch(&now) {
        Ok(d) => {
            let m = whole_micros(&d);
            #[verifier::truncate]
            (m as usize)
        },
        Err(_) => 0,
    };
    ClockReading { micros }
}

} // verus!
