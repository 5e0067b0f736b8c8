//! Lengths of time, counted in whole minutes and presented as hours plus
//! minutes.

use vstd::prelude::*;

verus! {

/// Largest magnitude, in minutes, that a duration may carry.  It matches the
/// bound on instants, so that instant arithmetic stays within machine range.
pub const MAX_DURATION_MINUTES: i64 = 5_270_400_000;

/// A length of time: either zero or an (hours, minutes) pair.
///
/// The pair is sign-preserving: constructors produce hours and minutes that
/// are the truncating quotient and remainder of the total by sixty, so both
/// carry the sign of the total.  Minutes leave the range -59..=59 only
/// through arithmetic composition, never through construction.
#[derive(Clone, Copy, PartialEq, Eq, Structural, Debug)]
pub enum Duration {
    Zero,
    Hm { hours: i64, minutes: i64 },
}

impl Duration {
    /// The duration as a signed total of minutes.
    pub open spec fn spec_minutes(self) -> int {
        match self {
            Duration::Zero => 0,
            Duration::Hm { hours, minutes } => hours * 60 + minutes,
        }
    }

    /// Hours and minutes as constructors leave them: remainder below sixty
    /// in magnitude, hours and minutes never of opposite sign, and the
    /// total within machine range.
    pub open spec fn well_formed(self) -> bool {
        match self {
            Duration::Zero => true,
            Duration::Hm { hours, minutes } => {
                &&& -60 < minutes < 60
                &&& (minutes >= 0 && hours >= 0 || minutes <= 0 && hours <= 0)
                &&& -MAX_DURATION_MINUTES <= self.spec_minutes() <= MAX_DURATION_MINUTES
            },
        }
    }

    /// Split a signed total of minutes into a sign-preserving
    /// (hours, minutes) pair.
    pub fn from_minutes(total: i64) -> (r: Duration)
        requires
            -MAX_DURATION_MINUTES <= total <= MAX_DURATION_MINUTES,
        ensures
            r.well_formed(),
            r.spec_minutes() == total,
            r is Hm,
    {
        let hours: i64 = total / 60;
        let minutes: i64 = total % 60;
        Duration::Hm { hours, minutes }
    }

    /// A duration of the given number of whole days.
    pub fn days(days: i64) -> (r: Duration)
        requires
            0 <= days <= 3_660_000,
        ensures
            r.well_formed(),
            r.spec_minutes() == days * 1440,
    {
        Duration::Hm { hours: days * 24, minutes: 0 }
    }

    /// The duration as a signed total of minutes, executable form.
    pub fn minutes_total(&self) -> (r: i64)
        requires
            self.well_formed(),
        ensures
            r == self.spec_minutes(),
    {
        match *self {
            Duration::Zero => 0,
            Duration::Hm { hours, minutes } => hours * 60 + minutes,
        }
    }
}

} // verus!
