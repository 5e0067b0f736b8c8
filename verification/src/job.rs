//! One recorded (or still running) time interval with a message and tags.

use vstd::prelude::*;

use crate::configuration::Properties;
use crate::date_time::DateTime;
use crate::date_time::MAX_MINUTES;
use crate::tag_set::TagSet;

verus! {

/// The first midnight strictly after the given minute count.
pub open spec fn next_midnight(m: int) -> int {
    (m / 1440 + 1) * 1440
}

/// A nonempty interval split at day boundaries: one (start, end) pair per
/// calendar day the interval touches, in order, each within its day.
pub open spec fn spec_split(s: int, e: int) -> Seq<(int, int)>
    recommends
        0 <= s <= e,
    decreases e - s,
{
    if s < 0 || e < s {
        Seq::empty()
    } else if e <= next_midnight(s) {
        seq![(s, e)]
    } else {
        seq![(s, next_midnight(s))] + spec_split(next_midnight(s), e)
    }
}

/// Total length, in minutes, of a sequence of intervals.
pub open spec fn intervals_total(fs: Seq<(int, int)>) -> int
    decreases fs.len(),
{
    if fs.len() == 0 {
        0
    } else {
        (fs[0].1 - fs[0].0) + intervals_total(fs.skip(1))
    }
}

/// The fragments of an interval cover it exactly: they are adjacent, they
/// run from its start to its end, each lies within one calendar day, and
/// their lengths sum to the interval's length.
pub proof fn lemma_split_covers(s: int, e: int)
    requires
        0 <= s <= e,
    ensures
        spec_split(s, e).len() >= 1,
        spec_split(s, e)[0].0 == s,
        spec_split(s, e)[spec_split(s, e).len() - 1].1 == e,
        forall|i: int|
            0 <= i < spec_split(s, e).len() - 1 ==> (#[trigger] spec_split(s, e)[i]).1
                == spec_split(s, e)[i + 1].0,
        forall|i: int|
            0 <= i < spec_split(s, e).len() ==> (#[trigger] spec_split(s, e)[i]).0 <= spec_split(
                s,
                e,
            )[i].1 <= next_midnight(spec_split(s, e)[i].0),
        forall|i: int|
            0 <= i < spec_split(s, e).len() ==> s <= (#[trigger] spec_split(s, e)[i]).0
                && spec_split(s, e)[i].1 <= e,
        intervals_total(spec_split(s, e)) == e - s,
    decreases e - s,
{
    assert(intervals_total(Seq::<(int, int)>::empty()) == 0);
    if e <= next_midnight(s) {
        assert(spec_split(s, e) == seq![(s, e)]);
        assert(spec_split(s, e).skip(1) =~= Seq::<(int, int)>::empty());
        assert(intervals_total(spec_split(s, e)) == (e - s) + intervals_total(
            spec_split(s, e).skip(1),
        ));
    } else {
        let nm = next_midnight(s);
        lemma_split_covers(nm, e);
        let head = seq![(s, nm)];
        let rest = spec_split(nm, e);
        let whole = spec_split(s, e);
        assert(whole == head + rest);
        assert(whole.skip(1) =~= rest);
        assert(whole[0] == (s, nm));
        assert forall|i: int| 1 <= i < whole.len() implies whole[i] == rest[i - 1] by {}
        assert(intervals_total(whole) == (nm - s) + intervals_total(rest));
    }
}

/// One recorded time interval.  An absent end means the job is open (still
/// running); at most one open job exists in a ledger at a time.
#[derive(Debug)]
pub struct Job {
    pub start: DateTime,
    pub end: Option<DateTime>,
    pub message: Option<String>,
    pub tags: TagSet,
}

/// Round to the nearest multiple of `resolution`, half upward.
pub open spec fn rounded_to(minutes: int, resolution: int) -> int {
    ((minutes + resolution / 2) / resolution) * resolution
}

impl Job {
    /// The interval is ordered and in machine range and the tags are
    /// distinct.
    pub open spec fn well_formed(self) -> bool {
        &&& self.start.well_formed()
        &&& match self.end {
            Some(e) => e.well_formed() && self.start.minutes <= e.minutes,
            None => true,
        }
        &&& self.tags.well_formed()
    }

    /// Whether the job is still running.
    pub open spec fn spec_is_open(self) -> bool {
        self.end is None
    }

    /// Whether the job is still running, executable form.
    pub fn is_open(&self) -> (r: bool)
        ensures
            r == self.spec_is_open(),
    {
        self.end.is_none()
    }

    /// The minute count the job runs until: its end, or the current instant
    /// while it is open.
    pub open spec fn spec_end_minutes(self, current: DateTime) -> int {
        match self.end {
            Some(e) => e.minutes as int,
            None => current.minutes as int,
        }
    }

    /// Length of the job in whole minutes, an open job measured up to
    /// `current`.
    pub fn minutes(&self, current: &DateTime) -> (r: u64)
        requires
            self.well_formed(),
            self.spec_is_open() ==> current.well_formed() && self.start.minutes
                <= current.minutes,
        ensures
            r == self.spec_end_minutes(*current) - self.start.minutes,
    {
        match &self.end {
            Some(e) => e.minutes - self.start.minutes,
            None => current.minutes - self.start.minutes,
        }
    }

    /// Hours of the job under a properties record, expressed in minutes
    /// rounded to the record's resolution (nearest multiple, half upward).
    pub fn hours(&self, properties: &Properties, current: &DateTime) -> (r: u64)
        requires
            self.well_formed(),
            properties.well_formed(),
            self.spec_is_open() ==> current.well_formed() && self.start.minutes
                <= current.minutes,
        ensures
            r == rounded_to(
                self.spec_end_minutes(*current) - self.start.minutes,
                properties.resolution as int,
            ),
            r <= MAX_MINUTES + 720,
    {
        let m = self.minutes(current);
        let res = properties.resolution as u64;
        let q = (m + res / 2) / res;
        proof {
            vstd::arithmetic::div_mod::lemma_remainder_lower((m + res / 2) as int, res as int);
            assert(q * res <= m + res / 2);
        }
        q * res
    }

    /// An exact copy.
    pub fn duplicate(&self) -> (r: Job)
        ensures
            r.start == self.start,
            r.end == self.end,
            r.tags@ == self.tags@,
            match (r.message, self.message) {
                (Some(a), Some(b)) => a@ == b@,
                (None, None) => true,
                _ => false,
            },
            self.well_formed() ==> r.well_formed(),
    {
        Job {
            start: self.start,
            end: self.end,
            message: match &self.message {
                Some(m) => Some(m.clone()),
                None => None,
            },
            tags: self.tags.duplicate(),
        }
    }

    /// Split the job at day boundaries: one closed fragment per calendar day
    /// the interval touches, in order, each carrying the job's tags.  An
    /// open job is measured up to `current`.
    pub fn split(&self, current: &DateTime) -> (r: Vec<Job>)
        requires
            self.well_formed(),
            self.spec_is_open() ==> current.well_formed() && self.start.minutes
                <= current.minutes,
        ensures
            ({
                let fs = spec_split(
                    self.start.minutes as int,
                    self.spec_end_minutes(*current),
                );
                &&& r@.len() == fs.len()
                &&& forall|i: int|
                    0 <= i < fs.len() ==> (#[trigger] r@[i]).start.minutes == fs[i].0
                        && r@[i].end == Some(DateTime { minutes: fs[i].1 as u64 })
                &&& forall|i: int| 0 <= i < fs.len() ==> (#[trigger] r@[i]).tags@ == self.tags@
                &&& forall|i: int| 0 <= i < fs.len() ==> (#[trigger] r@[i]).well_formed()
            }),
    {
        let ghost s0 = self.start.minutes as int;
        let ghost e0 = self.spec_end_minutes(*current);
        let e: u64 = match &self.end {
            Some(en) => en.minutes,
            None => current.minutes,
        };
        let mut frags: Vec<Job> = Vec::new();
        let mut cur: u64 = self.start.minutes;
        loop
            invariant_except_break
                spec_split(s0, e0) == frags@.map_values(
                    |j: Job| (j.start.minutes as int, j.spec_end_minutes(*current)),
                ) + spec_split(cur as int, e0),
            invariant
                self.well_formed(),
                s0 <= cur <= e0,
                e == e0,
                e0 < MAX_MINUTES,
                forall|i: int|
                    0 <= i < frags@.len() ==> (#[trigger] frags@[i]).end is Some,
                forall|i: int| 0 <= i < frags@.len() ==> (#[trigger] frags@[i]).tags@ == self.tags@,
                forall|i: int| 0 <= i < frags@.len() ==> (#[trigger] frags@[i]).well_formed(),
            ensures
                spec_split(s0, e0) == frags@.map_values(
                    |j: Job| (j.start.minutes as int, j.spec_end_minutes(*current)),
                ),
            decreases e0 - cur + 1,
        {
            let nm = cur / 1440 * 1440 + 1440;
            let frag_end = if e <= nm {
                e
            } else {
                nm
            };
            let ghost before = frags@;
            frags.push(
                Job {
                    start: DateTime { minutes: cur },
                    end: Some(DateTime { minutes: frag_end }),
                    message: match &self.message {
                        Some(m) => Some(m.clone()),
                        None => None,
                    },
                    tags: self.tags.duplicate(),
                },
            );
            proof {
                let f = |j: Job| (j.start.minutes as int, j.spec_end_minutes(*current));
                assert(frags@.map_values(f) =~= before.map_values(f).push(
                    (cur as int, frag_end as int),
                ));
                if e <= nm {
                    assert(spec_split(cur as int, e0) == seq![(cur as int, e0)]);
                    assert(before.map_values(f).push((cur as int, frag_end as int))
                        =~= before.map_values(f) + seq![(cur as int, e0)]);
                } else {
                    assert(spec_split(cur as int, e0) == seq![(cur as int, nm as int)]
                        + spec_split(nm as int, e0));
                    assert(before.map_values(f).push((cur as int, frag_end as int)) + spec_split(
                        nm as int,
                        e0,
                    ) =~= before.map_values(f) + spec_split(cur as int, e0));
                }
            }
            if e <= nm {
                break;
            }
            cur = nm;
        }
        proof {
            let f = |j: Job| (j.start.minutes as int, j.spec_end_minutes(*current));
            let fs = spec_split(s0, e0);
            assert forall|i: int| 0 <= i < fs.len() implies (#[trigger] frags@[i]).start.minutes
                == fs[i].0 && frags@[i].end == Some(DateTime { minutes: fs[i].1 as u64 }) by {
                assert(frags@.map_values(f)[i] == fs[i]);
                assert(f(frags@[i]) == fs[i]);
            }
        }
        frags
    }
}

} // verus!
