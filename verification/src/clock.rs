//! Instants of time, and the clock that supplies them.

use vstd::prelude::*;

verus! {

/// Microseconds in one second.
pub const MICROS_PER_SECOND: i64 = 1_000_000;

/// Microseconds in one minute.
pub const MICROS_PER_MINUTE: i64 = 60_000_000;

/// Seconds in one minute.
pub const SECONDS_PER_MINUTE: i64 = 60;

/// An instant on the UTC time line, as the number of microseconds since
/// 1970-01-01T00:00:00Z. Instants before that moment are negative.
#[derive(Clone, Copy, Debug, PartialEq, Eq, Structural)]
pub struct Timestamp {
    pub micros: i64,
}

impl Timestamp {
    /// The wall-clock minute that holds this instant, counted from the epoch.
    /// Two instants lie in the same minute exactly if this number is the same.
    pub open spec fn minute(self) -> int {
        self.micros as int / MICROS_PER_MINUTE as int
    }

    /// The whole seconds elapsed since the start of the instant's minute.
    pub open spec fn second(self) -> int {
        (self.micros as int / MICROS_PER_SECOND as int) % SECONDS_PER_MINUTE as int
    }

    /// The instant `micros` microseconds after the epoch.
    pub fn from_micros(micros: i64) -> (t: Timestamp)
        ensures
            t.micros == micros,
    {
        Timestamp { micros }
    }

    /// The number of microseconds since the epoch.
    pub fn as_micros(&self) -> (m: i64)
        ensures
            m == self.micros,
    {
        self.micros
    }

    /// Computes [`Timestamp::minute`].
    pub fn minute_index(&self) -> (m: i64)
        ensures
            m == self.minute(),
    {
        self.micros.checked_div_euclid(MICROS_PER_MINUTE).unwrap()
    }

    /// Computes [`Timestamp::second`].
    pub fn second_of_minute(&self) -> (s: u32)
        ensures
            s == self.second(),
            s < 60,
    {
        let seconds: i64 = self.micros.checked_div_euclid(MICROS_PER_SECOND).unwrap();
        seconds.checked_rem_euclid(SECONDS_PER_MINUTE).unwrap() as u32
    }
}

/// Reads the system clock.
///
/// Takes the instant from `std::time::SystemTime::now`, has `chrono` convert
/// it (`From<SystemTime> for DateTime<Utc>`, which also takes an instant
/// before the epoch) and reads it off with `DateTime::timestamp_micros`. The
/// contract claims nothing of the instant that comes back: it depends on the
/// machine's clock, and two readings need not even be in order. The
/// conversion panics only on a clock set some 260,000 years from the epoch,
/// beyond the dates that `chrono` can hold.
#[verifier::external_body]
pub(crate) fn now() -> Timestamp {
    let instant = chrono::DateTime::<chrono::Utc>::from(std::time::SystemTime::now());
    Timestamp { micros: instant.timestamp_micros() }
}

} // verus!
