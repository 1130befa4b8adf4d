//! Timestamps and the calendar arithmetic of the engine.
//!
//! A timestamp counts microseconds since the Unix epoch in UTC, the resolution
//! at which the store keeps its time columns. All arithmetic on timestamps is
//! stated over mathematical integers and carried out without overflow.

use vstd::prelude::*;

verus! {

/// Microseconds in one UTC calendar day.
pub const MICROS_PER_DAY: i64 = 86_400_000_000;

/// A point in time: microseconds since 1970-01-01 00:00:00 UTC.
#[derive(Clone, Copy, Debug, PartialEq, Eq, Structural)]
pub struct Timestamp {
    pub micros: i64,
}

/// The value `v` brought into the range of an `i64`.
pub open spec fn clamp_micros(v: int) -> int {
    if v < i64::MIN {
        i64::MIN as int
    } else if v > i64::MAX {
        i64::MAX as int
    } else {
        v
    }
}

/// The first microsecond of the UTC day that holds the instant `v`.
pub open spec fn day_start(v: int) -> int {
    v - v % (MICROS_PER_DAY as int)
}

/// The number of whole days in a span of `delta` microseconds, rounded
/// towards zero.
pub open spec fn whole_days(delta: int) -> int {
    if delta >= 0 {
        delta / (MICROS_PER_DAY as int)
    } else {
        -((-delta) / (MICROS_PER_DAY as int))
    }
}

/// The instant `days` days after `now`, saturating at the ends of the
/// representable range.
pub open spec fn instant_after_days(now: int, days: int) -> int {
    clamp_micros(now + days * (MICROS_PER_DAY as int))
}

/// The expiration instant of a membership granted at `now` for an optional
/// number of days.
pub open spec fn expiration_instant(expiration: Option<i32>, now: Timestamp) -> Option<Timestamp> {
    match expiration {
        Some(days) => Some(
            Timestamp { micros: instant_after_days(now.micros as int, days as int) as i64 },
        ),
        None => None,
    }
}

/// The current time, read from `chrono::Utc::now` and converted with
/// `DateTime::timestamp_micros`. Nothing is claimed of the value: it is
/// whatever the system clock says. The call panics where the system clock
/// stands before the Unix epoch.
#[verifier::external_body]
pub(crate) fn utc_now() -> (now: Timestamp) {
    Timestamp { micros: chrono::Utc::now().timestamp_micros() }
}

impl Timestamp {
    /// The instant `days` days later, saturating at the ends of the range.
    pub fn plus_days(self, days: i32) -> (r: Timestamp)
        ensures
            r.micros == instant_after_days(self.micros as int, days as int),
    {
        let day: i128 = MICROS_PER_DAY as i128;
        let shifted: i128 = self.micros as i128 + (days as i128) * day;
        if shifted < i64::MIN as i128 {
            Timestamp { micros: i64::MIN }
        } else if shifted > i64::MAX as i128 {
            Timestamp { micros: i64::MAX }
        } else {
            Timestamp { micros: shifted as i64 }
        }
    }

    /// Whether this instant is at or before `other`.
    pub fn at_or_before(self, other: Timestamp) -> (r: bool)
        ensures
            r == (self.micros <= other.micros),
    {
        self.micros <= other.micros
    }

    /// Whether this instant is strictly before `other`.
    pub fn before(self, other: Timestamp) -> (r: bool)
        ensures
            r == (self.micros < other.micros),
    {
        self.micros < other.micros
    }

    /// The whole days that passed from `earlier` to this instant, rounded
    /// towards zero; negative where `earlier` lies in the future.
    pub fn days_since(self, earlier: Timestamp) -> (r: i64)
        ensures
            r == whole_days(self.micros - earlier.micros),
    {
        let day: i128 = MICROS_PER_DAY as i128;
        let delta: i128 = self.micros as i128 - earlier.micros as i128;
        let days: i128 = delta / day;
        days as i64
    }
}

/// Converts an optional number of days from `now` into an expiration instant.
pub fn to_expiration_ts(expiration: Option<i32>, now: Timestamp) -> (r: Option<Timestamp>)
    ensures
        r == expiration_instant(expiration, now),
{
    match expiration {
        Some(days) => Some(now.plus_days(days)),
        None => None,
    }
}

/// One UTC calendar day, from its first to its last microsecond, both
/// included. The bounds are kept wide enough to hold a day that lies beyond
/// the range of a timestamp.
#[derive(Clone, Copy, Debug, PartialEq, Eq, Structural)]
pub struct DayWindow {
    pub lower: i128,
    pub upper: i128,
}

/// The first microsecond of the calendar day that lies `days` days after the
/// day of `now`.
pub open spec fn window_lower(now: int, days: int) -> int {
    day_start(now + days * (MICROS_PER_DAY as int))
}

/// The last microsecond of the calendar day that lies `days` days after the
/// day of `now`.
pub open spec fn window_upper(now: int, days: int) -> int {
    window_lower(now, days) + (MICROS_PER_DAY as int) - 1
}

/// Whether the instant `t` falls on the calendar day `days` days after `now`.
pub open spec fn falls_on_day(t: Timestamp, now: Timestamp, days: int) -> bool {
    window_lower(now.micros as int, days) <= t.micros <= window_upper(now.micros as int, days)
}

impl DayWindow {
    /// The calendar day that lies `days` days after the day of `now`.
    pub fn after_days(now: Timestamp, days: u32) -> (w: DayWindow)
        ensures
            w.lower == window_lower(now.micros as int, days as int),
            w.upper == window_upper(now.micros as int, days as int),
    {
        let day: i128 = MICROS_PER_DAY as i128;
        let shifted: i128 = now.micros as i128 + (days as i128) * day;
        let rest: i128 = shifted % day;
        let lower: i128 = if rest < 0 {
            shifted - rest - day
        } else {
            shifted - rest
        };
        DayWindow { lower, upper: lower + day - 1 }
    }

    /// Whether the instant `t` lies in the window.
    pub fn contains(&self, t: Timestamp) -> (r: bool)
        ensures
            r == (self.lower <= t.micros <= self.upper),
    {
        self.lower <= t.micros as i128 && t.micros as i128 <= self.upper
    }
}

} // verus!
