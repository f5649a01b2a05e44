//! Calendar-date and time-of-day values carried by telemetry sentences,
//! held as plain fields with explicit validity rules.

use vstd::prelude::*;

verus! {

/// Gregorian leap-year rule.
pub open spec fn is_leap_year(y: int) -> bool {
    y % 4 == 0 && (y % 100 != 0 || y % 400 == 0)
}

/// Number of days in month `m` of year `y`.
pub open spec fn days_in_month(y: int, m: int) -> int {
    if m == 2 {
        if is_leap_year(y) {
            29
        } else {
            28
        }
    } else if m == 4 || m == 6 || m == 9 || m == 11 {
        30
    } else {
        31
    }
}

/// `y`-`m`-`d` names a day of the Gregorian calendar.
pub open spec fn valid_ymd(y: int, m: int, d: int) -> bool {
    1 <= m <= 12 && 1 <= d <= days_in_month(y, m)
}

/// A time of day is within bounds, with sub-second precision in nanoseconds.
pub open spec fn valid_hms_nano(h: int, m: int, s: int, nano: int) -> bool {
    0 <= h < 24 && 0 <= m < 60 && 0 <= s < 60 && 0 <= nano < 1_000_000_000
}

/// A calendar date.
#[derive(Clone, Copy, Debug, PartialEq, Eq, Structural)]
pub struct Date {
    pub year: u16,
    pub month: u8,
    pub day: u8,
}

impl Date {
    /// The fields name a real day.
    pub open spec fn wf(self) -> bool {
        valid_ymd(self.year as int, self.month as int, self.day as int)
    }

    /// Builds a date, `None` exactly on a combination that names no day.
    pub fn from_ymd(year: u16, month: u8, day: u8) -> (r: Option<Date>)
        ensures
            match r {
                Some(d) => valid_ymd(year as int, month as int, day as int) && d == (Date {
                    year,
                    month,
                    day,
                }),
                None => !valid_ymd(year as int, month as int, day as int),
            },
    {
        if month < 1 || month > 12 {
            return None;
        }
        let dim: u8 = if month == 2 {
            if year % 4 == 0 && (year % 100 != 0 || year % 400 == 0) {
                29
            } else {
                28
            }
        } else if month == 4 || month == 6 || month == 9 || month == 11 {
            30
        } else {
            31
        };
        if day < 1 || day > dim {
            return None;
        }
        Some(Date { year, month, day })
    }

    /// Pairs this date with a time of day.
    pub fn and_time(self, time: Time) -> (r: DateTime)
        ensures
            r.date == self,
            r.time == time,
    {
        DateTime { date: self, time }
    }
}

/// A time of day with nanosecond precision.
#[derive(Clone, Copy, Debug, PartialEq, Eq, Structural)]
pub struct Time {
    pub hour: u8,
    pub minute: u8,
    pub second: u8,
    pub nanosecond: u32,
}

impl Time {
    /// The fields name a real time of day.
    pub open spec fn wf(self) -> bool {
        valid_hms_nano(
            self.hour as int,
            self.minute as int,
            self.second as int,
            self.nanosecond as int,
        )
    }

    /// Builds a time of day, `None` exactly on out-of-range fields.
    pub fn from_hms_nano(hour: u8, minute: u8, second: u8, nanosecond: u32) -> (r: Option<Time>)
        ensures
            match r {
                Some(t) => valid_hms_nano(hour as int, minute as int, second as int, nanosecond as int)
                    && t == (Time { hour, minute, second, nanosecond }),
                None => !valid_hms_nano(hour as int, minute as int, second as int, nanosecond as int),
            },
    {
        if hour < 24 && minute < 60 && second < 60 && nanosecond < 1_000_000_000 {
            Some(Time { hour, minute, second, nanosecond })
        } else {
            None
        }
    }
}

/// A calendar date paired with a time of day.
#[derive(Clone, Copy, Debug, PartialEq, Eq, Structural)]
pub struct DateTime {
    pub date: Date,
    pub time: Time,
}

} // verus!
