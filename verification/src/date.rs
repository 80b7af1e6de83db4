//! Calendar dates and timestamps, modelled as plain integer fields.
//!
//! A `CalendarDate` is the key under which one day's report is archived;
//! a `Timestamp` is the full civil time a snapshot was taken at, under the
//! archive's single fixed local-time rule.

use vstd::prelude::*;

verus! {

/// The calendar date key of one archive entry.
#[derive(Clone, Copy, Debug, PartialEq, Eq, Structural)]
pub struct CalendarDate {
    pub year: u32,
    pub month: u32,
    pub day: u32,
}

/// A civil timestamp: a calendar date plus a time of day.
#[derive(Clone, Copy, Debug, PartialEq, Eq, Structural)]
pub struct Timestamp {
    pub date: CalendarDate,
    pub hour: u32,
    pub minute: u32,
    pub second: u32,
}

pub open spec fn is_leap_year(y: int) -> bool {
    (y % 4 == 0 && y % 100 != 0) || y % 400 == 0
}

pub open spec fn spec_days_in_month(y: int, m: int) -> int {
    if m == 2 {
        if is_leap_year(y) {
            29
        } else {
            28
        }
    } else if m == 4 || m == 6 || m == 9 || m == 11 {
        30
    } else {
        31
    }
}

/// Number of days in the given month of the given year.
pub fn days_in_month(year: u32, month: u32) -> (r: u32)
    ensures
        r == spec_days_in_month(year as int, month as int),
{
    if month == 2 {
        if (year % 4 == 0 && year % 100 != 0) || year % 400 == 0 {
            29
        } else {
            28
        }
    } else if month == 4 || month == 6 || month == 9 || month == 11 {
        30
    } else {
        31
    }
}

impl CalendarDate {
    /// A usable date: month and day in range for its year, year bounded so
    /// that derived arithmetic stays far from any integer limit.
    pub open spec fn wf(self) -> bool {
        &&& self.year <= 9999
        &&& 1 <= self.month <= 12
        &&& 1 <= self.day <= spec_days_in_month(self.year as int, self.month as int)
    }

    /// The date one day earlier, rolling over month and year boundaries.
    pub open spec fn spec_prev(self) -> CalendarDate {
        if self.day > 1 {
            CalendarDate { year: self.year, month: self.month, day: (self.day - 1) as u32 }
        } else if self.month > 1 {
            CalendarDate {
                year: self.year,
                month: (self.month - 1) as u32,
                day: spec_days_in_month(self.year as int, self.month as int - 1) as u32,
            }
        } else {
            CalendarDate { year: (self.year - 1) as u32, month: 12, day: 31 }
        }
    }

    /// The previous calendar day; this is the archive key a run looks up to
    /// find "yesterday".
    pub fn prev_day(&self) -> (r: CalendarDate)
        requires
            self.wf(),
            !(self.year == 0 && self.month == 1 && self.day == 1),
        ensures
            r == self.spec_prev(),
            r.wf(),
    {
        if self.day > 1 {
            CalendarDate { year: self.year, month: self.month, day: self.day - 1 }
        } else if self.month > 1 {
            CalendarDate {
                year: self.year,
                month: self.month - 1,
                day: days_in_month(self.year, self.month - 1),
            }
        } else {
            CalendarDate { year: self.year - 1, month: 12, day: 31 }
        }
    }
}

impl Timestamp {
    /// A usable timestamp: a well-formed date and an in-range time of day.
    pub open spec fn wf(self) -> bool {
        &&& self.date.wf()
        &&& self.hour <= 23
        &&& self.minute <= 59
        &&& self.second <= 59
    }

    /// A strictly monotone encoding of a well-formed timestamp, used to
    /// order reports by the moment they were taken.
    pub open spec fn spec_key(self) -> int {
        ((((self.date.year * 16 + self.date.month) * 32 + self.date.day) * 32 + self.hour) * 64
            + self.minute) * 64 + self.second
    }

    /// Decide well-formedness of a timestamp read from untrusted text.
    pub fn check_wf(&self) -> (r: bool)
        ensures
            r == self.wf(),
    {
        self.date.year <= 9999 && 1 <= self.date.month && self.date.month <= 12 && 1
            <= self.date.day && self.date.day <= days_in_month(self.date.year, self.date.month)
            && self.hour <= 23 && self.minute <= 59 && self.second <= 59
    }

    /// The order key of this timestamp as a machine integer.
    pub fn key(&self) -> (r: u64)
        requires
            self.wf(),
        ensures
            r == self.spec_key(),
    {
        ((((self.date.year as u64 * 16 + self.date.month as u64) * 32 + self.date.day as u64) * 32
            + self.hour as u64) * 64 + self.minute as u64) * 64 + self.second as u64
    }
}

} // verus!
