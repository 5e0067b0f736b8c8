//! Partially specified times of day or dates.
//!
//! A time spec handed to command inference may omit fields: a bare marker, a
//! clock time without a date, a date without a year, or a full date, each
//! with or without a clock time.  A partial value only becomes an instant
//! once it is resolved against a reference instant, from which every omitted
//! field defaults.

use vstd::prelude::*;

use crate::date_time::DateTime;
use crate::date_time::MAX_MINUTES;
use crate::date_time::day_index_from_ymd;
use crate::date_time::day_index_of;
use crate::date_time::days_in_month;
use crate::date_time::days_in_month_of;
use crate::date_time::spec_ymd_of;

verus! {

/// A partially specified time: fields not given default from a reference
/// instant at resolution.
#[derive(Clone, Copy, Debug, PartialEq, Eq, Structural)]
pub enum PartialDateTime {
    /// A bare marker: the reference instant itself.
    Current,
    /// A clock time; the date defaults.
    Hm { hour: u64, minute: u64 },
    /// A month and day; year and clock time default.
    Md { month: u64, day: u64 },
    /// A month, day and clock time; the year defaults.
    MdHm { month: u64, day: u64, hour: u64, minute: u64 },
    /// A full date; the clock time defaults.
    Ymd { year: u64, month: u64, day: u64 },
    /// A full date and clock time: an absolute instant.
    YmdHm { year: u64, month: u64, day: u64, hour: u64, minute: u64 },
}

/// A year held within the calendar's range.
pub open spec fn clamp_year(y: int) -> int {
    if y <= 9999 {
        y
    } else {
        9999
    }
}

/// A day of month held within the month's length.
pub open spec fn clamp_day(y: int, m: int, d: int) -> int {
    if d <= days_in_month_of(y, m) {
        d
    } else {
        days_in_month_of(y, m)
    }
}

impl PartialDateTime {
    /// Each given field lies in its calendar range.  A given day may exceed
    /// its month's length (the month may not even be known yet); resolution
    /// clamps it.
    pub open spec fn well_formed(self) -> bool {
        match self {
            PartialDateTime::Current => true,
            PartialDateTime::Hm { hour, minute } => hour < 24 && minute < 60,
            PartialDateTime::Md { month, day } => 1 <= month <= 12 && 1 <= day <= 31,
            PartialDateTime::MdHm { month, day, hour, minute } => 1 <= month <= 12 && 1 <= day
                <= 31 && hour < 24 && minute < 60,
            PartialDateTime::Ymd { year, month, day } => 1 <= year <= 9999 && 1 <= month <= 12 && 1
                <= day <= 31,
            PartialDateTime::YmdHm { year, month, day, hour, minute } => 1 <= year <= 9999 && 1
                <= month <= 12 && 1 <= day <= 31 && hour < 24 && minute < 60,
        }
    }

    /// The minute count a partial time resolves to against a reference
    /// instant: every omitted field (date, year, or clock time) is taken
    /// from the reference.  A reference beyond year 9999 counts as year
    /// 9999.
    pub open spec fn spec_resolved(self, reference: DateTime) -> int {
        let rd = reference.spec_day_index();
        let rt = reference.spec_minute_of_day();
        let ry = clamp_year(spec_ymd_of(rd).0);
        match self {
            PartialDateTime::Current => reference.minutes as int,
            PartialDateTime::Hm { hour, minute } => rd * 1440 + hour * 60 + minute,
            PartialDateTime::Md { month, day } => day_index_of(
                ry,
                month as int,
                clamp_day(ry, month as int, day as int),
            ) * 1440 + rt,
            PartialDateTime::MdHm { month, day, hour, minute } => day_index_of(
                ry,
                month as int,
                clamp_day(ry, month as int, day as int),
            ) * 1440 + hour * 60 + minute,
            PartialDateTime::Ymd { year, month, day } => day_index_of(
                year as int,
                month as int,
                clamp_day(year as int, month as int, day as int),
            ) * 1440 + rt,
            PartialDateTime::YmdHm { year, month, day, hour, minute } => day_index_of(
                year as int,
                month as int,
                clamp_day(year as int, month as int, day as int),
            ) * 1440 + hour * 60 + minute,
        }
    }

    /// Whether this is the bare "current time" marker.
    pub fn is_current(&self) -> (r: bool)
        ensures
            r == (*self is Current),
    {
        match *self {
            PartialDateTime::Current => true,
            _ => false,
        }
    }

    /// Resolve against a reference instant.
    pub fn resolve(&self, reference: &DateTime) -> (r: DateTime)
        requires
            self.well_formed(),
            reference.well_formed(),
        ensures
            r.well_formed(),
            r.minutes == self.spec_resolved(*reference),
    {
        match *self {
            PartialDateTime::Current => *reference,
            PartialDateTime::Hm { hour, minute } => DateTime {
                minutes: reference.day_index() * 1440 + hour * 60 + minute,
            },
            PartialDateTime::Md { month, day } => {
                let d = resolve_day_index(reference, month, day);
                DateTime { minutes: d * 1440 + reference.minute_of_day() }
            },
            PartialDateTime::MdHm { month, day, hour, minute } => {
                let d = resolve_day_index(reference, month, day);
                DateTime { minutes: d * 1440 + hour * 60 + minute }
            },
            PartialDateTime::Ymd { year, month, day } => {
                let dim = days_in_month(year, month);
                let dd = if day <= dim {
                    day
                } else {
                    dim
                };
                let d = day_index_from_ymd(year, month, dd);
                DateTime { minutes: d * 1440 + reference.minute_of_day() }
            },
            PartialDateTime::YmdHm { year, month, day, hour, minute } => {
                let dim = days_in_month(year, month);
                let dd = if day <= dim {
                    day
                } else {
                    dim
                };
                let d = day_index_from_ymd(year, month, dd);
                DateTime { minutes: d * 1440 + hour * 60 + minute }
            },
        }
    }
}

/// Day index of a month and day taken in the reference's (clamped) year,
/// the day held within the month.
fn resolve_day_index(reference: &DateTime, month: u64, day: u64) -> (r: u64)
    requires
        reference.well_formed(),
        1 <= month <= 12,
        1 <= day <= 31,
    ensures
        ({
            let ry = clamp_year(spec_ymd_of(reference.spec_day_index()).0);
            r == day_index_of(ry, month as int, clamp_day(ry, month as int, day as int))
        }),
        r < 3_660_000,
{
    let (y0, _, _) = reference.ymd();
    let y = if y0 > 9999 {
        9999
    } else {
        y0
    };
    let dim = days_in_month(y, month);
    let dd = if day <= dim {
        day
    } else {
        dim
    };
    day_index_from_ymd(y, month, dd)
}

} // verus!
