//! Points in time and proleptic-Gregorian calendar arithmetic.
//!
//! An instant is a count of whole minutes since the first day of year one,
//! midnight, in the user's local calendar; day zero of that count is a
//! Monday.  Storing local calendar minutes is a deliberate model choice: the
//! count is total-ordered and timezone-independent arithmetic, and the
//! difference of two instants counts local calendar minutes, so a daylight
//! shift between them is neither added nor subtracted.  The clock source
//! converts wall-clock time to these fields once, at the edge.  All calendar
//! structure (month lengths, leap years, weekdays) is stated by the spec
//! functions of this module and proved of the executable conversions.

use vstd::prelude::*;

use crate::duration::Duration;

verus! {

/// Exclusive upper bound on the minute count of an instant; enough for every
/// calendar year up to ten thousand.
pub const MAX_MINUTES: u64 = 5_270_400_000;

/// Whether a year has a twenty-ninth of February.
pub open spec fn is_leap_year(year: int) -> bool {
    (year % 4 == 0 && year % 100 != 0) || year % 400 == 0
}

/// Days in a month of a year.
pub open spec fn days_in_month_of(year: int, month: int) -> int {
    if month == 2 {
        if is_leap_year(year) { 29 } else { 28 }
    } else if month == 4 || month == 6 || month == 9 || month == 11 {
        30
    } else {
        31
    }
}

/// Days in a year.
pub open spec fn days_in_year_of(year: int) -> int {
    if is_leap_year(year) { 366 } else { 365 }
}

/// Days of all years before the given one, counted from year one.
pub open spec fn days_before_year(year: int) -> int
    decreases year,
{
    if year <= 1 { 0 } else { days_before_year(year - 1) + days_in_year_of(year - 1) }
}

/// Days of all months of the year before the given one.
pub open spec fn days_before_month(year: int, month: int) -> int
    decreases month,
{
    if month <= 1 { 0 } else { days_before_month(year, month - 1) + days_in_month_of(year, month - 1) }
}

/// A valid calendar date: year at least one, month one to twelve, day within
/// the month.
pub open spec fn valid_ymd(year: int, month: int, day: int) -> bool {
    &&& 1 <= year
    &&& 1 <= month <= 12
    &&& 1 <= day <= days_in_month_of(year, month)
}

/// Index of a calendar date in the day count (the first day of year one is
/// day zero).
pub open spec fn day_index_of(year: int, month: int, day: int) -> int {
    days_before_year(year) + days_before_month(year, month) + day - 1
}

/// Weekday of a day index, zero standing for Sunday.  Day zero is a Monday.
pub open spec fn weekday_of(day: int) -> int {
    (day + 1) % 7
}

/// The days of the months of one year sum to the days of that year.
pub proof fn lemma_months_fill_year(year: int)
    ensures
        days_before_month(year, 13) == days_in_year_of(year),
{
    reveal_with_fuel(days_before_month, 13);
}

/// The day count of the years before a year is bounded linearly in the year.
pub proof fn lemma_days_before_year_bounds(year: int)
    requires
        1 <= year,
    ensures
        365 * (year - 1) <= days_before_year(year) <= 366 * (year - 1),
    decreases year,
{
    if year > 1 {
        lemma_days_before_year_bounds(year - 1);
    }
}

/// Later years have at least as many days before them, a later year by at
/// least a year's worth.
pub proof fn lemma_days_before_year_monotone(a: int, b: int)
    requires
        1 <= a <= b,
    ensures
        days_before_year(a) <= days_before_year(b),
        a < b ==> days_before_year(a) + days_in_year_of(a) <= days_before_year(b),
    decreases b,
{
    if a < b {
        lemma_days_before_year_monotone(a, b - 1);
    }
}

/// Later months of a year have at least as many days before them.
pub proof fn lemma_days_before_month_monotone(y: int, a: int, b: int)
    requires
        1 <= a <= b <= 13,
    ensures
        days_before_month(y, a) <= days_before_month(y, b),
        a < b ==> days_before_month(y, a) + days_in_month_of(y, a) <= days_before_month(y, b),
    decreases b,
{
    if a < b {
        lemma_days_before_month_monotone(y, a, b - 1);
    }
}

/// A date's day index lies within its year's days and its month's days.
pub proof fn lemma_day_index_range(y: int, m: int, d: int)
    requires
        valid_ymd(y, m, d),
    ensures
        days_before_year(y) <= day_index_of(y, m, d) < days_before_year(y + 1),
        days_before_month(y, m) <= day_index_of(y, m, d) - days_before_year(y)
            < days_before_month(y, m + 1),
{
    lemma_days_before_month_monotone(y, 1, m);
    lemma_days_before_month_monotone(y, m + 1, 13);
    lemma_months_fill_year(y);
}

/// No two calendar dates share a day index.
pub proof fn lemma_day_index_unique(y1: int, m1: int, d1: int, y2: int, m2: int, d2: int)
    requires
        valid_ymd(y1, m1, d1),
        valid_ymd(y2, m2, d2),
        day_index_of(y1, m1, d1) == day_index_of(y2, m2, d2),
    ensures
        y1 == y2 && m1 == m2 && d1 == d2,
{
    lemma_day_index_range(y1, m1, d1);
    lemma_day_index_range(y2, m2, d2);
    if y1 < y2 {
        lemma_days_before_year_monotone(y1 + 1, y2);
        assert(false);
    }
    if y2 < y1 {
        lemma_days_before_year_monotone(y2 + 1, y1);
        assert(false);
    }
    if m1 < m2 {
        lemma_days_before_month_monotone(y1, m1 + 1, m2);
        assert(false);
    }
    if m2 < m1 {
        lemma_days_before_month_monotone(y1, m2 + 1, m1);
        assert(false);
    }
}

/// The calendar date of a day index: the unique (year, month, day) triple
/// the index stands for.
pub open spec fn spec_ymd_of(day: int) -> (int, int, int) {
    choose|t: (int, int, int)|
        valid_ymd(t.0, t.1, t.2) && day_index_of(t.0, t.1, t.2) == day
}

/// A valid date is what its own day index converts back to.
pub proof fn lemma_ymd_of(y: int, m: int, d: int)
    requires
        valid_ymd(y, m, d),
    ensures
        spec_ymd_of(day_index_of(y, m, d)) == (y, m, d),
{
    let day = day_index_of(y, m, d);
    let w = (y, m, d);
    assert(valid_ymd(w.0, w.1, w.2) && day_index_of(w.0, w.1, w.2) == day);
    assert(exists|t: (int, int, int)|
        valid_ymd(t.0, t.1, t.2) && day_index_of(t.0, t.1, t.2) == day);
    let t = spec_ymd_of(day);
    assert(valid_ymd(t.0, t.1, t.2) && day_index_of(t.0, t.1, t.2) == day);
    lemma_day_index_unique(t.0, t.1, t.2, y, m, d);
}

/// Every day index in range is some calendar date's index.
pub proof fn lemma_ymd_exists(day: int)
    requires
        0 <= day < 3_660_000,
    ensures
        exists|t: (int, int, int)| valid_ymd(t.0, t.1, t.2) && day_index_of(t.0, t.1, t.2) == day,
    decreases day,
{
    if day == 0 {
        let w = (1int, 1int, 1int);
        assert(valid_ymd(w.0, w.1, w.2) && day_index_of(w.0, w.1, w.2) == 0);
    } else {
        lemma_ymd_exists(day - 1);
        let p = choose|t: (int, int, int)|
            valid_ymd(t.0, t.1, t.2) && day_index_of(t.0, t.1, t.2) == day - 1;
        if p.2 < days_in_month_of(p.0, p.1) {
            let w = (p.0, p.1, p.2 + 1);
            assert(valid_ymd(w.0, w.1, w.2) && day_index_of(w.0, w.1, w.2) == day);
        } else if p.1 < 12 {
            let w = (p.0, p.1 + 1, 1int);
            assert(valid_ymd(w.0, w.1, w.2) && day_index_of(w.0, w.1, w.2) == day);
        } else {
            lemma_months_fill_year(p.0);
            let w = (p.0 + 1, 1int, 1int);
            assert(days_before_year(p.0 + 1) == days_before_year(p.0) + days_in_year_of(p.0));
            assert(valid_ymd(w.0, w.1, w.2) && day_index_of(w.0, w.1, w.2) == day);
        }
    }
}

/// A later day index never falls in an earlier year.
pub proof fn lemma_year_of_day_monotone(d1: int, d2: int)
    requires
        0 <= d1 <= d2 < 3_660_000,
    ensures
        spec_ymd_of(d1).0 <= spec_ymd_of(d2).0,
{
    lemma_ymd_exists(d1);
    lemma_ymd_exists(d2);
    let a = spec_ymd_of(d1);
    let b = spec_ymd_of(d2);
    assert(valid_ymd(a.0, a.1, a.2) && day_index_of(a.0, a.1, a.2) == d1);
    assert(valid_ymd(b.0, b.1, b.2) && day_index_of(b.0, b.1, b.2) == d2);
    lemma_day_index_range(a.0, a.1, a.2);
    lemma_day_index_range(b.0, b.1, b.2);
    if a.0 > b.0 {
        lemma_days_before_year_monotone(b.0 + 1, a.0);
        assert(false);
    }
}

/// An instant: whole minutes since midnight beginning the first day of year
/// one, local calendar.
#[derive(Clone, Copy, PartialEq, Eq, Structural, Debug)]
pub struct DateTime {
    pub minutes: u64,
}

impl DateTime {
    /// The instant lies within machine range.
    pub open spec fn well_formed(self) -> bool {
        self.minutes < MAX_MINUTES
    }

    /// Index of the calendar day the instant falls on.
    pub open spec fn spec_day_index(self) -> int {
        self.minutes as int / 1440
    }

    /// Minutes of the instant past its day's midnight.
    pub open spec fn spec_minute_of_day(self) -> int {
        self.minutes as int % 1440
    }

    /// Index of the calendar day the instant falls on, executable form.
    pub fn day_index(&self) -> (r: u64)
        ensures
            r == self.spec_day_index(),
    {
        self.minutes / 1440
    }

    /// Minutes of the instant past its day's midnight, executable form.
    pub fn minute_of_day(&self) -> (r: u64)
        ensures
            r == self.spec_minute_of_day(),
            r < 1440,
    {
        self.minutes % 1440
    }

    /// Build an instant from calendar fields.
    pub fn from_ymd_hm(year: u64, month: u64, day: u64, hour: u64, minute: u64) -> (r: DateTime)
        requires
            valid_ymd(year as int, month as int, day as int),
            year <= 9999,
            hour < 24,
            minute < 60,
        ensures
            r.well_formed(),
            r.minutes == day_index_of(year as int, month as int, day as int) * 1440
                + hour * 60 + minute,
    {
        let d = day_index_from_ymd(year, month, day);
        proof {
            lemma_days_before_year_bounds(year as int);
        }
        DateTime { minutes: d * 1440 + hour * 60 + minute }
    }

    /// Recover the calendar date of the instant's day.
    pub fn ymd(&self) -> (r: (u64, u64, u64))
        requires
            self.well_formed(),
        ensures
            valid_ymd(r.0 as int, r.1 as int, r.2 as int),
            day_index_of(r.0 as int, r.1 as int, r.2 as int) == self.spec_day_index(),
            (r.0 as int, r.1 as int, r.2 as int) == spec_ymd_of(self.spec_day_index()),
            r.0 <= 10100,
    {
        let r = ymd_from_day_index(self.day_index());
        proof {
            lemma_ymd_of(r.0 as int, r.1 as int, r.2 as int);
            lemma_day_index_range(r.0 as int, r.1 as int, r.2 as int);
            if r.0 > 10100 {
                lemma_days_before_year_bounds(r.0 as int);
                assert(false);
            }
        }
        r
    }

    /// Hour of the day, zero to twenty-three.
    pub fn hour(&self) -> (r: u64)
        ensures
            r == self.spec_minute_of_day() / 60,
            r < 24,
    {
        self.minutes % 1440 / 60
    }

    /// Minute of the hour, zero to fifty-nine.
    pub fn minute(&self) -> (r: u64)
        ensures
            r == self.spec_minute_of_day() % 60,
            r < 60,
    {
        self.minutes % 1440 % 60
    }

    /// Weekday of the instant's day, zero standing for Sunday.
    pub fn weekday_sun0(&self) -> (r: u64)
        ensures
            r == weekday_of(self.spec_day_index()),
            r < 7,
    {
        (self.minutes / 1440 + 1) % 7
    }

    /// The instant moved later by a number of minutes.
    pub fn plus_minutes(&self, m: u64) -> (r: DateTime)
        requires
            self.minutes + m < MAX_MINUTES,
        ensures
            r.well_formed(),
            r.minutes == self.minutes + m,
    {
        DateTime { minutes: self.minutes + m }
    }

    /// The instant moved earlier by a number of minutes.
    pub fn minus_minutes(&self, m: u64) -> (r: DateTime)
        requires
            m <= self.minutes,
        ensures
            r.minutes == self.minutes - m,
    {
        DateTime { minutes: self.minutes - m }
    }

    /// The instant moved by a signed duration, held within range: a result
    /// that would fall before the count's origin or past its bound stops at
    /// that edge.
    pub fn plus_duration(&self, d: &Duration) -> (r: DateTime)
        requires
            self.well_formed(),
            d.well_formed(),
        ensures
            r.well_formed(),
            r.minutes == saturated_minutes(self.minutes as int + d.spec_minutes()),
    {
        let total: i64 = self.minutes as i64 + d.minutes_total();
        if total < 0 {
            DateTime { minutes: 0 }
        } else if total >= MAX_MINUTES as i64 {
            DateTime { minutes: MAX_MINUTES - 1 }
        } else {
            DateTime { minutes: total as u64 }
        }
    }

    /// Signed difference of two instants, as a whole-minute duration split
    /// into hours and minutes (both carrying the sign of the difference).
    pub fn since(&self, earlier: &DateTime) -> (r: Duration)
        requires
            self.well_formed(),
            earlier.well_formed(),
        ensures
            r.well_formed(),
            r.spec_minutes() == self.minutes as int - earlier.minutes as int,
    {
        Duration::from_minutes(self.minutes as i64 - earlier.minutes as i64)
    }

    /// Whether this instant lies strictly before another.
    pub fn before(&self, other: &DateTime) -> (r: bool)
        ensures
            r == (self.minutes < other.minutes),
    {
        self.minutes < other.minutes
    }
}

/// Where an out-of-range minute count stops: at zero below, just under the
/// bound above.
pub open spec fn saturated_minutes(total: int) -> int {
    if total < 0 {
        0
    } else if total >= MAX_MINUTES {
        MAX_MINUTES - 1
    } else {
        total
    }
}

/// Whether a year has a twenty-ninth of February, executable form.
pub fn is_leap_year_exec(year: u64) -> (r: bool)
    ensures
        r == is_leap_year(year as int),
{
    (year % 4 == 0 && year % 100 != 0) || year % 400 == 0
}

/// Relies on the days-in-month crate's `days_in_month`: the month's day
/// count under the proleptic-Gregorian leap rule (31, 30, or 28/29 for
/// February by the leap year of the given year); it is total over its
/// arguments.
#[verifier::external_body]
fn days_in_month_extern(year: u64, month: u64) -> (r: u64)
    requires
        1 <= month <= 12,
        year <= 20000,
    ensures
        r == days_in_month_of(year as int, month as int),
        28 <= r <= 31,
{
    days_in_month::days_in_month(year as i32, month as u32) as u64
}

/// Days in a month of a year, executable form.
pub fn days_in_month(year: u64, month: u64) -> (r: u64)
    requires
        1 <= month <= 12,
        year <= 20000,
    ensures
        r == days_in_month_of(year as int, month as int),
        28 <= r <= 31,
{
    days_in_month_extern(year, month)
}

/// Days in a year, executable form.
pub fn days_in_year(year: u64) -> (r: u64)
    ensures
        r == days_in_year_of(year as int),
{
    if is_leap_year_exec(year) { 366 } else { 365 }
}

/// Day index of a calendar date.
pub fn day_index_from_ymd(year: u64, month: u64, day: u64) -> (r: u64)
    requires
        valid_ymd(year as int, month as int, day as int),
        year <= 9999,
    ensures
        r == day_index_of(year as int, month as int, day as int),
        r < 3_660_000,
{
    let mut days: u64 = 0;
    let mut y: u64 = 1;
    while y < year
        invariant
            1 <= y <= year <= 9999,
            days == days_before_year(y as int),
            days <= 366 * (y - 1),
        decreases year - y,
    {
        days = days + days_in_year(y);
        y = y + 1;
    }
    let mut m: u64 = 1;
    while m < month
        invariant
            1 <= m <= month <= 12,
            year <= 9999,
            days == days_before_year(year as int) + days_before_month(year as int, m as int),
            days <= 366 * (year - 1) + 31 * (m - 1),
        decreases month - m,
    {
        days = days + days_in_month(year, m);
        m = m + 1;
    }
    days + (day - 1)
}

/// Calendar date of a day index.
pub fn ymd_from_day_index(day: u64) -> (r: (u64, u64, u64))
    requires
        day < 3_660_000,
    ensures
        valid_ymd(r.0 as int, r.1 as int, r.2 as int),
        day_index_of(r.0 as int, r.1 as int, r.2 as int) == day,
{
    let mut acc: u64 = 0;
    let mut y: u64 = 1;
    loop
        invariant
            1 <= y,
            acc == days_before_year(y as int),
            365 * (y - 1) <= acc,
            acc <= day < 3_660_000,
        ensures
            acc == days_before_year(y as int),
            acc <= day,
            day - acc < days_in_year_of(y as int),
            1 <= y,
        decreases day + 1 - acc,
    {
        let step = days_in_year(y);
        if acc + step > day {
            break;
        }
        acc = acc + step;
        y = y + 1;
    }
    let rest = day - acc;
    proof {
        lemma_months_fill_year(y as int);
        assert(y <= 10100);
    }
    let mut macc: u64 = 0;
    let mut m: u64 = 1;
    while macc + days_in_month(y, m) <= rest
        invariant
            1 <= m <= 12,
            1 <= y <= 10100,
            macc == days_before_month(y as int, m as int),
            macc <= rest,
            rest < days_before_month(y as int, 13),
            days_before_month(y as int, 13) == days_in_year_of(y as int),
            macc <= 366,
        decreases 12 - m,
    {
        macc = macc + days_in_month(y, m);
        m = m + 1;
        proof {
            if m == 13 {
                assert(days_before_month(y as int, 13) <= rest);
            }
        }
    }
    (y, m, rest - macc + 1)
}

} // verus!
