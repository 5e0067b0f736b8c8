//! The current-time source.
//!
//! The clock is the one part of the library whose result depends on the
//! machine: nothing is promised of the instant it returns beyond validity.
//! Everything else takes the current instant as an explicit argument.

use vstd::prelude::*;

use crate::date_time::DateTime;
use crate::date_time::days_in_month_of;
use chrono::Datelike;
use chrono::Timelike;

verus! {

/// Relies on chrono's `Local::now` with its `Datelike` and `Timelike`
/// accessors: the current local calendar date and clock time.  The values
/// depend on the machine's clock and time zone, so only their validity is
/// stated: chrono returns a real calendar date (month one to twelve, day
/// within the month under the proleptic-Gregorian leap rule) and a real
/// clock time.  On a machine whose clock stands before the Unix epoch or
/// beyond chrono's range, `Local::now` itself aborts; no argument of this
/// wrapper can exclude an environment.
#[verifier::external_body]
fn now_local_fields() -> (r: (i64, u64, u64, u64, u64))
    ensures
        1 <= r.1 <= 12,
        1 <= r.2 <= days_in_month_of(r.0 as int, r.1 as int),
        r.3 < 24,
        r.4 < 60,
{
    let now = chrono::Local::now();
    (
        now.year() as i64,
        now.month() as u64,
        now.day() as u64,
        now.hour() as u64,
        now.minute() as u64,
    )
}

impl DateTime {
    /// The current local instant.  A clock outside the calendar's range
    /// (before year one or after year 9999) yields the count's origin.
    pub fn now() -> (r: DateTime)
        ensures
            r.well_formed(),
    {
        let (y, mo, d, h, mi) = now_local_fields();
        if 1 <= y && y <= 9999 {
            DateTime::from_ymd_hm(y as u64, mo, d, h, mi)
        } else {
            DateTime { minutes: 0 }
        }
    }
}

} // verus!
