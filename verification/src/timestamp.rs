//! A calendar timestamp held as plain field values.
//!
//! Log lines carry timestamps of the form `YYYY-MM-DD HH:MM:SS`,
//! interpreted as UTC.  The engine only stores and hands the value on, so
//! it is kept as its components with a well-formedness invariant; callers
//! that need another representation convert at the boundary.

use vstd::prelude::*;

verus! {

/// A date and time of day, second precision, interpreted as UTC.
#[derive(Debug, Clone, Copy, PartialEq, Eq, Hash, Structural)]
pub struct Timestamp {
    pub year: u32,
    pub month: u8,
    pub day: u8,
    pub hour: u8,
    pub minute: u8,
    pub second: u8,
}

/// The Gregorian leap-year rule.
pub open spec fn is_leap_year(y: int) -> bool {
    (y % 4 == 0 && y % 100 != 0) || y % 400 == 0
}

/// The number of days of month `m` in year `y`.
pub open spec fn days_in_month(y: int, m: int) -> int {
    if m == 1 || m == 3 || m == 5 || m == 7 || m == 8 || m == 10 || m == 12 {
        31
    } else if m == 4 || m == 6 || m == 9 || m == 11 {
        30
    } else if is_leap_year(y) {
        29
    } else {
        28
    }
}

impl Timestamp {
    /// A timestamp is well formed when its fields denote a real calendar
    /// date (leap years included) and a real time of day.
    pub open spec fn wf(self) -> bool {
        &&& self.year <= 9999
        &&& 1 <= self.month <= 12
        &&& 1 <= self.day <= days_in_month(self.year as int, self.month as int)
        &&& self.hour < 24
        &&& self.minute < 60
        &&& self.second < 60
    }

    /// Builds a timestamp from components, rejecting any combination
    /// that is not a real calendar date and time of day.
    pub fn new(year: u32, month: u8, day: u8, hour: u8, minute: u8, second: u8) -> (r: Option<
        Timestamp,
    >)
        ensures
            r is Some <==> (Timestamp { year, month, day, hour, minute, second }).wf(),
            r is Some ==> r->0 == (Timestamp { year, month, day, hour, minute, second }),
    {
        let t = Timestamp { year, month, day, hour, minute, second };
        if year > 9999 || month < 1 || month > 12 || day < 1 || hour >= 24 || minute >= 60
            || second >= 60 {
            return None;
        }
        let dim: u8 = if month == 1 || month == 3 || month == 5 || month == 7 || month == 8
            || month == 10 || month == 12 {
            31
        } else if month == 4 || month == 6 || month == 9 || month == 11 {
            30
        } else if (year % 4 == 0 && year % 100 != 0) || year % 400 == 0 {
            29
        } else {
            28
        };
        if day > dim {
            return None;
        }
        Some(t)
    }
}

} // verus!
