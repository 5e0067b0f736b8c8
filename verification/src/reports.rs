//! The calendar report: multi-day jobs split into day fragments, fragments
//! folded into per-day per-tag hours, and a month-by-month grid rendered
//! with weekly subtotals, monthly totals and threshold flagging.
//!
//! Sums of fragment minutes saturate at [`MAX_SUM_MINUTES`], and sums of
//! cost at [`MAX_SUM_COST`]; both lie far beyond any real ledger.

use vstd::prelude::*;

use crate::command::Context;
use crate::configuration::Configuration;
use crate::configuration::MAX_RATE;
use crate::configuration::spec_resolve;
use crate::date_time::DateTime;
use crate::date_time::MAX_MINUTES;
use crate::date_time::days_in_month;
use crate::date_time::day_index_of;
use crate::date_time::days_in_month_of;
use crate::date_time::weekday_of;
use crate::date_time::ymd_from_day_index;
use crate::format::all_ascii;
use crate::format::dec_bytes;
use crate::format::hours_bytes;
use crate::format::pay_bytes;
use crate::format::push_dec;
use crate::format::push_hours;
use crate::format::push_padded_dec;
use crate::format::push_pay_cents;
use crate::format::string_from_ascii;
use crate::job::Job;
use crate::job::rounded_to;
use crate::job::spec_split;
use crate::job_list::JobList;
use crate::job_list::entries_measurable;
use crate::job_list::spec_hours_overall;
use crate::job_list::spec_pay_overall;

verus! {

/// Saturation bound for summed minutes.
pub const MAX_SUM_MINUTES: u64 = 6_000_000_000;

/// Saturation bound for summed cost (cents per hour times minutes).
pub const MAX_SUM_COST: u64 = 6_000_000_000_000_000_000;

/// One day's worth of one job: the portion of the job's interval within one
/// calendar day, carrying the job's resolved tag and properties.
pub struct Fragment {
    /// Day index of the calendar day.
    pub day: u64,
    /// The tag the job's tag set resolved to (empty for the base record).
    pub tag: String,
    /// The fragment's hours in rounded minutes.
    pub minutes: u64,
    /// The resolved record's rate, if any.
    pub rate: Option<u64>,
    /// The resolved record's daily limit, if any.
    pub max_hours: Option<u32>,
}

impl Fragment {
    /// The fragment's numbers lie in machine range.
    pub open spec fn well_formed(self) -> bool {
        &&& self.day < 3_660_000
        &&& self.minutes <= MAX_MINUTES + 720
        &&& match self.rate {
            Some(r) => r <= MAX_RATE,
            None => true,
        }
    }

    /// The fragment as a ghost tuple: day, tag, minutes, rate, limit.
    pub open spec fn view(self) -> (int, Seq<char>, int, Option<u64>, Option<u32>) {
        (self.day as int, self.tag@, self.minutes as int, self.rate, self.max_hours)
    }
}

/// The fragments of one job: its day-split intervals, each under the job's
/// resolved tag and properties.
pub open spec fn spec_frags_of_job(j: Job, c: Configuration, current: DateTime) -> Seq<
    (int, Seq<char>, int, Option<u64>, Option<u32>),
> {
    let res = spec_resolve(j.tags@, c);
    spec_split(j.start.minutes as int, j.spec_end_minutes(current)).map_values(
        |iv: (int, int)|
            (
                iv.0 / 1440,
                res.0,
                rounded_to(iv.1 - iv.0, res.1.resolution as int),
                res.1.rate,
                res.1.max_hours,
            ),
    )
}

/// The fragments of a list of entries, in order.
pub open spec fn spec_fragments(
    entries: Seq<(usize, Job)>,
    c: Configuration,
    current: DateTime,
) -> Seq<(int, Seq<char>, int, Option<u64>, Option<u32>)>
    decreases entries.len(),
{
    if entries.len() == 0 {
        Seq::empty()
    } else {
        spec_fragments(entries.drop_last(), c, current) + spec_frags_of_job(
            entries.last().1,
            c,
            current,
        )
    }
}

/// Addition of minutes, saturated at the minutes bound.
pub open spec fn sat_add_minutes(a: int, b: int) -> int {
    if a + b > MAX_SUM_MINUTES {
        MAX_SUM_MINUTES as int
    } else {
        a + b
    }
}

/// Addition of cost, saturated at the cost bound.
pub open spec fn sat_add_cost(a: int, b: int) -> int {
    if a + b > MAX_SUM_COST {
        MAX_SUM_COST as int
    } else {
        a + b
    }
}

/// Minutes recorded on a day under one tag, saturated.
pub open spec fn spec_day_tag_minutes(fs: Seq<Fragment>, day: int, tag: Seq<char>) -> int
    decreases fs.len(),
{
    if fs.len() == 0 {
        0
    } else {
        let rest = spec_day_tag_minutes(fs.drop_last(), day, tag);
        if fs.last().day == day && fs.last().tag@ == tag {
            sat_add_minutes(rest, fs.last().minutes as int)
        } else {
            rest
        }
    }
}

/// Minutes recorded on a day over all tags, saturated.
pub open spec fn spec_day_minutes(fs: Seq<Fragment>, day: int) -> int
    decreases fs.len(),
{
    if fs.len() == 0 {
        0
    } else {
        let rest = spec_day_minutes(fs.drop_last(), day);
        if fs.last().day == day {
            sat_add_minutes(rest, fs.last().minutes as int)
        } else {
            rest
        }
    }
}

/// Whether any fragment was recorded on a day.
pub open spec fn spec_day_present(fs: Seq<Fragment>, day: int) -> bool {
    exists|i: int| 0 <= i < fs.len() && (#[trigger] fs[i]).day == day
}

/// Cost recorded on a day: each rated fragment's rate times its minutes,
/// saturated; absent when no fragment on the day carries a rate.
pub open spec fn spec_day_cost(fs: Seq<Fragment>, day: int) -> Option<int>
    decreases fs.len(),
{
    if fs.len() == 0 {
        None
    } else {
        let rest = spec_day_cost(fs.drop_last(), day);
        if fs.last().day == day && fs.last().rate is Some {
            Some(
                sat_add_cost(
                    match rest {
                        Some(x) => x,
                        None => 0,
                    },
                    fs.last().rate.unwrap() * fs.last().minutes as int,
                ),
            )
        } else {
            rest
        }
    }
}

/// Whether some tag's hours on a day exceed that tag's daily limit.
pub open spec fn spec_day_exceeded(fs: Seq<Fragment>, day: int) -> bool {
    exists|i: int|
        0 <= i < fs.len() && (#[trigger] fs[i]).day == day && fs[i].max_hours is Some
            && spec_day_tag_minutes(fs, day, fs[i].tag@) > fs[i].max_hours.unwrap() * 60
}

/// Fragments' numbers in machine range.
pub open spec fn frags_well_formed(fs: Seq<Fragment>) -> bool {
    forall|i: int| 0 <= i < fs.len() ==> (#[trigger] fs[i]).well_formed()
}

/// Split every entry's job at day boundaries, resolving each job's tag and
/// properties once; the fragments come in entry order.
pub fn collect_fragments(jobs: &JobList, current: &DateTime) -> (r: Vec<Fragment>)
    requires
        jobs.well_formed(),
        entries_measurable(jobs.jobs@, *current),
    ensures
        r@.map_values(|f: Fragment| f@) == spec_fragments(jobs.jobs@, jobs.configuration, *current),
        frags_well_formed(r@),
{
    let ghost entries = jobs.jobs@;
    let mut out: Vec<Fragment> = Vec::new();
    let mut i: usize = 0;
    while i < jobs.jobs.len()
        invariant
            i <= entries.len(),
            entries == jobs.jobs@,
            jobs.well_formed(),
            entries_measurable(entries, *current),
            out@.map_values(|f: Fragment| f@) == spec_fragments(
                entries.take(i as int),
                jobs.configuration,
                *current,
            ),
            frags_well_formed(out@),
        decreases entries.len() - i,
    {
        let job = &jobs.jobs[i].1;
        let (tag, props) = jobs.configuration.get_and_why(&job.tags);
        proof {
            crate::job_list::lemma_resolve_well_formed(job.tags@, jobs.configuration);
            assert(entries[i as int].1.well_formed());
        }
        let parts = job.split(current);
        let ghost fs = spec_split(job.start.minutes as int, job.spec_end_minutes(*current));
        proof {
            crate::job::lemma_split_covers(
                job.start.minutes as int,
                job.spec_end_minutes(*current),
            );
        }
        let mut k: usize = 0;
        while k < parts.len()
            invariant
                k <= parts@.len(),
                parts@.len() == fs.len(),
                fs == spec_split(job.start.minutes as int, job.spec_end_minutes(*current)),
                forall|n: int|
                    0 <= n < fs.len() ==> (#[trigger] parts@[n]).start.minutes == fs[n].0
                        && parts@[n].end == Some(DateTime { minutes: fs[n].1 as u64 }),
                forall|n: int|
                    0 <= n < fs.len() ==> 0 <= (#[trigger] fs[n]).0 <= fs[n].1 < MAX_MINUTES,
                forall|n: int| 0 <= n < fs.len() ==> (#[trigger] parts@[n]).well_formed(),
                props.well_formed(),
                (tag@, props) == spec_resolve(job.tags@, jobs.configuration),
                out@.map_values(|f: Fragment| f@) == spec_fragments(
                    entries.take(i as int),
                    jobs.configuration,
                    *current,
                ) + spec_frags_of_job(*job, jobs.configuration, *current).take(k as int),
                frags_well_formed(out@),
            decreases parts@.len() - k,
        {
            let part = &parts[k];
            let minutes = part.hours(&props, current);
            let frag = Fragment {
                day: part.start.minutes / 1440,
                tag: tag.clone(),
                minutes,
                rate: props.rate,
                max_hours: props.max_hours,
            };
            proof {
                let fj = spec_frags_of_job(*job, jobs.configuration, *current);
                assert(fj[k as int] == (
                    fs[k as int].0 / 1440,
                    tag@,
                    rounded_to(fs[k as int].1 - fs[k as int].0, props.resolution as int),
                    props.rate,
                    props.max_hours,
                ));
                assert(part.spec_end_minutes(*current) == fs[k as int].1);
                assert(frag@ == fj[k as int]);
                assert(fj.take(k + 1 as int) =~= fj.take(k as int).push(fj[k as int]));
                assert((out@ + seq![frag]).map_values(|f: Fragment| f@) =~= out@.map_values(
                    |f: Fragment| f@,
                ).push(frag@));
            }
            out.push(frag);
            proof {
                assert(out@.map_values(|f: Fragment| f@) =~= spec_fragments(
                    entries.take(i as int),
                    jobs.configuration,
                    *current,
                ) + spec_frags_of_job(*job, jobs.configuration, *current).take(k + 1 as int));
            }
            k = k + 1;
        }
        proof {
            let fj = spec_frags_of_job(*job, jobs.configuration, *current);
            assert(fj.take(fj.len() as int) =~= fj);
            assert(entries.take(i + 1 as int).drop_last() =~= entries.take(i as int));
            assert(entries.take(i + 1 as int).last() == entries[i as int]);
            assert(*job == entries[i as int].1);
        }
        i = i + 1;
    }
    proof {
        assert(entries.take(entries.len() as int) =~= entries);
    }
    out
}

/// Minutes recorded on a day under one tag, executable form.
pub fn day_tag_minutes(fs: &Vec<Fragment>, day: u64, tag: &String) -> (r: u64)
    requires
        frags_well_formed(fs@),
    ensures
        r == spec_day_tag_minutes(fs@, day as int, tag@),
        r <= MAX_SUM_MINUTES,
{
    let mut total: u64 = 0;
    let mut i: usize = 0;
    while i < fs.len()
        invariant
            i <= fs@.len(),
            frags_well_formed(fs@),
            total == spec_day_tag_minutes(fs@.take(i as int), day as int, tag@),
            total <= MAX_SUM_MINUTES,
        decreases fs@.len() - i,
    {
        proof {
            assert(fs@.take(i + 1 as int).drop_last() =~= fs@.take(i as int));
            assert(fs@.take(i + 1 as int).last() == fs@[i as int]);
            assert(fs@[i as int].well_formed());
        }
        if fs[i].day == day && crate::tag_set::string_eq(&fs[i].tag, tag) {
            let add = fs[i].minutes;
            if total + add > MAX_SUM_MINUTES {
                total = MAX_SUM_MINUTES;
            } else {
                total = total + add;
            }
        }
        i = i + 1;
    }
    proof {
        assert(fs@.take(fs@.len() as int) =~= fs@);
    }
    total
}

/// Minutes recorded on a day over all tags, executable form.
pub fn day_minutes(fs: &Vec<Fragment>, day: u64) -> (r: u64)
    requires
        frags_well_formed(fs@),
    ensures
        r == spec_day_minutes(fs@, day as int),
        r <= MAX_SUM_MINUTES,
{
    let mut total: u64 = 0;
    let mut i: usize = 0;
    while i < fs.len()
        invariant
            i <= fs@.len(),
            frags_well_formed(fs@),
            total == spec_day_minutes(fs@.take(i as int), day as int),
            total <= MAX_SUM_MINUTES,
        decreases fs@.len() - i,
    {
        proof {
            assert(fs@.take(i + 1 as int).drop_last() =~= fs@.take(i as int));
            assert(fs@.take(i + 1 as int).last() == fs@[i as int]);
            assert(fs@[i as int].well_formed());
        }
        if fs[i].day == day {
            let add = fs[i].minutes;
            if total + add > MAX_SUM_MINUTES {
                total = MAX_SUM_MINUTES;
            } else {
                total = total + add;
            }
        }
        i = i + 1;
    }
    proof {
        assert(fs@.take(fs@.len() as int) =~= fs@);
    }
    total
}

/// Whether any fragment was recorded on a day, executable form.
pub fn day_present(fs: &Vec<Fragment>, day: u64) -> (r: bool)
    ensures
        r == spec_day_present(fs@, day as int),
{
    let mut i: usize = 0;
    while i < fs.len()
        invariant
            i <= fs@.len(),
            forall|k: int| 0 <= k < i ==> (#[trigger] fs@[k]).day != day,
        decreases fs@.len() - i,
    {
        if fs[i].day == day {
            assert(fs@[i as int].day == day);
            return true;
        }
        i = i + 1;
    }
    false
}

/// Cost recorded on a day, executable form.
pub fn day_cost(fs: &Vec<Fragment>, day: u64) -> (r: Option<u64>)
    requires
        frags_well_formed(fs@),
    ensures
        match (r, spec_day_cost(fs@, day as int)) {
            (Some(a), Some(b)) => a == b && a <= MAX_SUM_COST,
            (None, None) => true,
            _ => false,
        },
{
    let mut total: u64 = 0;
    let mut any: bool = false;
    let mut i: usize = 0;
    while i < fs.len()
        invariant
            i <= fs@.len(),
            frags_well_formed(fs@),
            match spec_day_cost(fs@.take(i as int), day as int) {
                Some(x) => any && total == x && total <= MAX_SUM_COST,
                None => !any && total == 0,
            },
        decreases fs@.len() - i,
    {
        proof {
            assert(fs@.take(i + 1 as int).drop_last() =~= fs@.take(i as int));
            assert(fs@.take(i + 1 as int).last() == fs@[i as int]);
            assert(fs@[i as int].well_formed());
        }
        if fs[i].day == day {
            match fs[i].rate {
                Some(rate) => {
                    proof {
                        vstd::arithmetic::mul::lemma_mul_nonnegative(
                            rate as int,
                            fs@[i as int].minutes as int,
                        );
                        vstd::arithmetic::mul::lemma_mul_upper_bound(
                            rate as int,
                            MAX_RATE as int,
                            fs@[i as int].minutes as int,
                            MAX_MINUTES as int + 720,
                        );
                    }
                    let add = rate * fs[i].minutes;
                    if total + add > MAX_SUM_COST {
                        total = MAX_SUM_COST;
                    } else {
                        total = total + add;
                    }
                    any = true;
                },
                None => {},
            }
        }
        i = i + 1;
    }
    proof {
        assert(fs@.take(fs@.len() as int) =~= fs@);
    }
    if any {
        Some(total)
    } else {
        None
    }
}

/// Whether some tag's hours on a day exceed that tag's daily limit,
/// executable form.
pub fn day_exceeded(fs: &Vec<Fragment>, day: u64) -> (r: bool)
    requires
        frags_well_formed(fs@),
    ensures
        r == spec_day_exceeded(fs@, day as int),
{
    let mut i: usize = 0;
    while i < fs.len()
        invariant
            i <= fs@.len(),
            frags_well_formed(fs@),
            forall|k: int|
                0 <= k < i ==> !((#[trigger] fs@[k]).day == day && fs@[k].max_hours is Some
                    && spec_day_tag_minutes(fs@, day as int, fs@[k].tag@)
                    > fs@[k].max_hours.unwrap() * 60),
        decreases fs@.len() - i,
    {
        if fs[i].day == day {
            match fs[i].max_hours {
                Some(mh) => {
                    let m = day_tag_minutes(fs, day, &fs[i].tag);
                    if m > (mh as u64) * 60 {
                        assert(fs@[i as int].day == day);
                        return true;
                    }
                },
                None => {},
            }
        }
        i = i + 1;
    }
    false
}

} // verus!

verus! {

/// The bytes of "Total: ".
pub open spec fn lit_total() -> Seq<u8> {
    seq![84u8, 111u8, 116u8, 97u8, 108u8, 58u8, 32u8]
}

/// The bytes of " job(s), ".
pub open spec fn lit_jobs() -> Seq<u8> {
    seq![32u8, 106u8, 111u8, 98u8, 40u8, 115u8, 41u8, 44u8, 32u8]
}

/// The bytes of " hours".
pub open spec fn lit_hours() -> Seq<u8> {
    seq![32u8, 104u8, 111u8, 117u8, 114u8, 115u8]
}

/// The bytes of " = $".
pub open spec fn lit_pay() -> Seq<u8> {
    seq![32u8, 61u8, 32u8, 36u8]
}

/// Pay in cents, rounded half up from cents-per-hour times minutes.
pub open spec fn cents_of(pay: int) -> int {
    (pay + 30) / 60
}

/// The closing totals line: the number of jobs, their hours, and the pay
/// where one applies, ending the line.
pub open spec fn total_line_bytes(count: int, minutes: int, pay: Option<int>) -> Seq<u8> {
    lit_total() + dec_bytes(count) + lit_jobs() + hours_bytes(minutes) + lit_hours() + (match pay {
        Some(p) => lit_pay() + pay_bytes(cents_of(p)),
        None => Seq::<u8>::empty(),
    }) + seq![10u8]
}

/// Append another byte vector.
pub fn append_bytes(out: &mut Vec<u8>, v: &Vec<u8>)
    ensures
        final(out)@ == old(out)@ + v@,
        all_ascii(old(out)@) && all_ascii(v@) ==> all_ascii(final(out)@),
{
    let mut i: usize = 0;
    while i < v.len()
        invariant
            i <= v@.len(),
            out@ == old(out)@ + v@.take(i as int),
        decreases v@.len() - i,
    {
        let b = v[i];
        out.push(b);
        proof {
            assert(out@ =~= old(out)@ + v@.take(i + 1 as int));
        }
        i = i + 1;
    }
    proof {
        assert(v@.take(v@.len() as int) =~= v@);
    }
}

/// Append the totals line.
pub fn push_total_line(out: &mut Vec<u8>, count: u64, minutes: u64, pay: Option<u64>)
    requires
        minutes <= MAX_SUM_MINUTES,
        match pay {
            Some(p) => p <= MAX_SUM_COST,
            None => true,
        },
    ensures
        final(out)@ == old(out)@ + total_line_bytes(
            count as int,
            minutes as int,
            match pay {
                Some(p) => Some(p as int),
                None => None,
            },
        ),
        all_ascii(old(out)@) ==> all_ascii(final(out)@),
{
    let head = vec![84u8, 111u8, 116u8, 97u8, 108u8, 58u8, 32u8];
    proof {
        assert(head@ =~= lit_total());
    }
    append_bytes(out, &head);
    push_dec(out, count);
    let jobs_lit = vec![32u8, 106u8, 111u8, 98u8, 40u8, 115u8, 41u8, 44u8, 32u8];
    proof {
        assert(jobs_lit@ =~= lit_jobs());
    }
    append_bytes(out, &jobs_lit);
    push_hours(out, minutes);
    let hours_lit = vec![32u8, 104u8, 111u8, 117u8, 114u8, 115u8];
    proof {
        assert(hours_lit@ =~= lit_hours());
    }
    append_bytes(out, &hours_lit);
    match pay {
        Some(p) => {
            let pay_lit = vec![32u8, 61u8, 32u8, 36u8];
            proof {
                assert(pay_lit@ =~= lit_pay());
            }
            append_bytes(out, &pay_lit);
            push_pay_cents(out, (p + 30) / 60);
        },
        None => {},
    }
    out.push(10u8);
    proof {
        assert(final(out)@ =~= old(out)@ + total_line_bytes(
            count as int,
            minutes as int,
            match pay {
                Some(p) => Some(p as int),
                None => None,
            },
        ));
    }
}

/// Spaces.
pub open spec fn spaces(n: int) -> Seq<u8> {
    Seq::new(
        if n >= 0 {
            n as nat
        } else {
            0
        },
        |i: int| 32u8,
    )
}

/// Bytes left-padded with spaces to at least the given width.
pub open spec fn pad_left_bytes(s: Seq<u8>, width: int) -> Seq<u8> {
    if s.len() >= width {
        s
    } else {
        spaces(width - s.len()) + s
    }
}

/// Append the text of an hours amount, left-padded with spaces to `width`.
fn push_padded_hours(out: &mut Vec<u8>, minutes: u64, width: usize)
    requires
        minutes <= MAX_SUM_MINUTES,
    ensures
        final(out)@ == old(out)@ + pad_left_bytes(hours_bytes(minutes as int), width as int),
        all_ascii(old(out)@) ==> all_ascii(final(out)@),
{
    let mut cell: Vec<u8> = Vec::new();
    push_hours(&mut cell, minutes);
    proof {
        assert(all_ascii(Seq::<u8>::empty()));
        assert(cell@ =~= hours_bytes(minutes as int));
    }
    let needed: usize = if cell.len() < width {
        width - cell.len()
    } else {
        0
    };
    let mut pad: usize = 0;
    while pad < needed
        invariant
            pad <= needed,
            all_ascii(cell@),
            cell@ == hours_bytes(minutes as int),
            needed == if cell@.len() < width {
                width - cell@.len()
            } else {
                0
            },
            out@ == old(out)@ + spaces(pad as int),
            all_ascii(old(out)@) ==> all_ascii(out@),
        decreases needed - pad,
    {
        out.push(32u8);
        proof {
            assert(out@ =~= old(out)@ + spaces(pad + 1 as int));
        }
        pad = pad + 1;
    }
    append_bytes(out, &cell);
    proof {
        if cell@.len() >= width {
            assert(spaces(0) =~= Seq::<u8>::empty());
            assert(out@ =~= old(out)@ + pad_left_bytes(
                hours_bytes(minutes as int),
                width as int,
            ));
        } else {
            assert(out@ =~= old(out)@ + pad_left_bytes(
                hours_bytes(minutes as int),
                width as int,
            ));
        }
    }
}

/// Whether a month holds any fragment.
/// Whether a month holds any fragment.
pub open spec fn spec_month_present(fs: Seq<Fragment>, year: int, month: int) -> bool {
    exists|i: int|
        0 <= i < fs.len() && {
            let t = crate::date_time::spec_ymd_of((#[trigger] fs[i]).day as int);
            t.0 == year && t.1 == month
        }
}

/// The blocks of every month holding a fragment, chronological: years
/// ascending from `y` through `y_end` (years beyond 9999 are not rendered),
/// months ascending within each year, a month's block present exactly when a
/// fragment falls in it.
pub open spec fn months_bytes(fs: Seq<Fragment>, y: int, m: int, y_end: int) -> Seq<u8>
    decreases y_end + 1 - y, 13 - m,
{
    if y < 1 || y > y_end || y > 9999 || m < 1 || m > 13 {
        Seq::empty()
    } else if m == 13 {
        months_bytes(fs, y + 1, 1, y_end)
    } else {
        (if spec_month_present(fs, y, m) {
            month_bytes(fs, y, m)
        } else {
            Seq::empty()
        }) + months_bytes(fs, y, m + 1, y_end)
    }
}

/// Whether a month holds any fragment, executable form.
fn month_present(fs: &Vec<Fragment>, year: u64, month: u64) -> (r: bool)
    requires
        frags_well_formed(fs@),
    ensures
        r == spec_month_present(fs@, year as int, month as int),
{
    let mut i: usize = 0;
    while i < fs.len()
        invariant
            i <= fs@.len(),
            frags_well_formed(fs@),
            forall|k: int|
                0 <= k < i ==> {
                    let t = crate::date_time::spec_ymd_of((#[trigger] fs@[k]).day as int);
                    !(t.0 == year && t.1 == month)
                },
        decreases fs@.len() - i,
    {
        let (y, m, d) = ymd_from_day_index(fs[i].day);
        proof {
            crate::date_time::lemma_ymd_of(y as int, m as int, d as int);
        }
        if y == year && m == month {
            return true;
        }
        i = i + 1;
    }
    false
}

} // verus!

verus! {

/// The bytes of the grid's column header line.
pub open spec fn header_bytes() -> Seq<u8> {
    seq![
        68u8, 97u8, 121u8, 32u8, 32u8, 32u8, 32u8, 32u8, 83u8, 117u8, 110u8, 32u8, 32u8, 32u8,
        32u8, 32u8, 77u8, 111u8, 110u8, 32u8, 32u8, 32u8, 32u8, 32u8, 84u8, 117u8, 101u8, 32u8,
        32u8, 32u8, 32u8, 32u8, 87u8, 101u8, 100u8, 32u8, 32u8, 32u8, 32u8, 32u8, 84u8, 104u8,
        117u8, 32u8, 32u8, 32u8, 32u8, 32u8, 70u8, 114u8, 105u8, 32u8, 32u8, 32u8, 32u8, 32u8,
        83u8, 97u8, 116u8, 32u8, 32u8, 32u8, 32u8, 87u8, 101u8, 101u8, 107u8, 10u8,
    ]
}

/// The cell of a day without recorded work: seven spaces and a dash, never a
/// zero.
pub open spec fn dash_cell() -> Seq<u8> {
    seq![32u8, 32u8, 32u8, 32u8, 32u8, 32u8, 32u8, 45u8]
}

/// The month/year title line, centred in the grid's width.
pub open spec fn title_bytes(year: int, month: int) -> Seq<u8> {
    let t = dec_bytes(month) + seq![47u8] + dec_bytes(year);
    spaces(
        if t.len() < 68 {
            (68 - t.len()) / 2
        } else {
            0
        },
    ) + t + seq![10u8]
}

/// A month's three-letter name.
pub open spec fn month_name_bytes(month: int) -> Seq<u8> {
    if month == 1 {
        seq![74u8, 97u8, 110u8]
    } else if month == 2 {
        seq![70u8, 101u8, 98u8]
    } else if month == 3 {
        seq![77u8, 97u8, 114u8]
    } else if month == 4 {
        seq![65u8, 112u8, 114u8]
    } else if month == 5 {
        seq![77u8, 97u8, 121u8]
    } else if month == 6 {
        seq![74u8, 117u8, 110u8]
    } else if month == 7 {
        seq![74u8, 117u8, 108u8]
    } else if month == 8 {
        seq![65u8, 117u8, 103u8]
    } else if month == 9 {
        seq![83u8, 101u8, 112u8]
    } else if month == 10 {
        seq![79u8, 99u8, 116u8]
    } else if month == 11 {
        seq![78u8, 111u8, 118u8]
    } else {
        seq![68u8, 101u8, 99u8]
    }
}

/// The cell a day renders as: its summed hours right-aligned in eight
/// columns, or the dash placeholder when nothing was recorded on it.
pub open spec fn day_cell_bytes(fs: Seq<Fragment>, di: int) -> Seq<u8> {
    if spec_day_present(fs, di) {
        pad_left_bytes(hours_bytes(spec_day_minutes(fs, di)), 8)
    } else {
        dash_cell()
    }
}

/// The month's closing summary line: its name and year, the month's summed
/// hours, and its cost exactly when some rated tag contributed, then a blank
/// line.
pub open spec fn month_line_bytes(year: int, month: int, mm: int, mc: Option<int>) -> Seq<u8> {
    month_name_bytes(month) + seq![32u8] + dec_bytes(year) + seq![58u8, 32u8] + hours_bytes(mm)
        + lit_hours() + (match mc {
        Some(c) => lit_pay() + pay_bytes(cents_of(c)),
        None => Seq::<u8>::empty(),
    }) + seq![10u8, 10u8]
}

/// The grid from a given day of the month to its end, with the running week
/// sum, cells already in the current row, and the month's running hours and
/// cost: one cell per day, a week subtotal and a fresh row at each Sunday
/// after the first cell, then the fill, the last week's subtotal and the
/// month summary.  Every day of the month, the last included, yields exactly
/// one cell.
pub open spec fn grid_from(
    fs: Seq<Fragment>,
    year: int,
    month: int,
    day: int,
    wm: int,
    rc: int,
    mm: int,
    mc: Option<int>,
) -> Seq<u8>
    decreases days_in_month_of(year, month) + 1 - day,
{
    let dim = days_in_month_of(year, month);
    if day < 1 || day > dim {
        spaces(8 * (7 - rc)) + pad_left_bytes(hours_bytes(wm), 8) + seq![10u8] + month_line_bytes(
            year,
            month,
            mm,
            mc,
        )
    } else {
        let di = day_index_of(year, month, day);
        let brk = weekday_of(di) == 0 && day > 1;
        let pre: Seq<u8> = if brk {
            pad_left_bytes(hours_bytes(wm), 8) + seq![10u8] + crate::format::padded_dec(day, 3)
        } else {
            Seq::empty()
        };
        let wm0: int = if brk {
            0
        } else {
            wm
        };
        let rc0: int = if brk {
            0
        } else {
            rc
        };
        let rc1: int = if rc0 < 7 {
            rc0 + 1
        } else {
            rc0
        };
        if spec_day_present(fs, di) {
            let dm = spec_day_minutes(fs, di);
            let mc1 = match spec_day_cost(fs, di) {
                Some(dc) => Some(
                    sat_add_cost(
                        match mc {
                            Some(c) => c,
                            None => 0,
                        },
                        dc,
                    ),
                ),
                None => mc,
            };
            pre + pad_left_bytes(hours_bytes(dm), 8) + grid_from(
                fs,
                year,
                month,
                day + 1,
                sat_add_minutes(wm0, dm),
                rc1,
                sat_add_minutes(mm, dm),
                mc1,
            )
        } else {
            pre + dash_cell() + grid_from(fs, year, month, day + 1, wm0, rc1, mm, mc)
        }
    }
}

/// One month's whole block: title, header, the indent to the month's first
/// weekday, and the grid of all its days.
pub open spec fn month_bytes(fs: Seq<Fragment>, year: int, month: int) -> Seq<u8> {
    let wd1 = weekday_of(day_index_of(year, month, 1));
    title_bytes(year, month) + header_bytes() + spaces(3) + spaces(8 * wd1) + grid_from(
        fs,
        year,
        month,
        1,
        0,
        wd1,
        0,
        None,
    )
}

/// Append one month's calendar grid: exactly `month_bytes` of the fragments.
fn render_month(out: &mut Vec<u8>, fs: &Vec<Fragment>, year: u64, month: u64)
    requires
        frags_well_formed(fs@),
        1 <= year <= 9999,
        1 <= month <= 12,
    ensures
        final(out)@ == old(out)@ + month_bytes(fs@, year as int, month as int),
        all_ascii(old(out)@) ==> all_ascii(final(out)@),
{
    render_title(out, year, month);
    let header = vec![
        68u8, 97u8, 121u8, 32u8, 32u8, 32u8, 32u8, 32u8, 83u8, 117u8, 110u8, 32u8, 32u8, 32u8,
        32u8, 32u8, 77u8, 111u8, 110u8, 32u8, 32u8, 32u8, 32u8, 32u8, 84u8, 117u8, 101u8, 32u8,
        32u8, 32u8, 32u8, 32u8, 87u8, 101u8, 100u8, 32u8, 32u8, 32u8, 32u8, 32u8, 84u8, 104u8,
        117u8, 32u8, 32u8, 32u8, 32u8, 32u8, 70u8, 114u8, 105u8, 32u8, 32u8, 32u8, 32u8, 32u8,
        83u8, 97u8, 116u8, 32u8, 32u8, 32u8, 32u8, 87u8, 101u8, 101u8, 107u8, 10u8,
    ];
    proof {
        assert(header@ =~= header_bytes());
        assert(all_ascii(header@));
    }
    append_bytes(out, &header);
    out.push(32u8);
    out.push(32u8);
    out.push(32u8);
    let day1 = crate::date_time::day_index_from_ymd(year, month, 1);
    let wd1 = (day1 + 1) % 7;
    proof {
        assert(spaces(3) =~= seq![32u8, 32u8, 32u8]);
    }
    let mut ind: u64 = 0;
    while ind < wd1
        invariant
            ind <= wd1 < 7,
            wd1 == weekday_of(day_index_of(year as int, month as int, 1)),
            out@ == old(out)@ + title_bytes(year as int, month as int) + header_bytes() + spaces(3)
                + spaces(8 * ind),
            all_ascii(old(out)@) ==> all_ascii(out@),
        decreases wd1 - ind,
    {
        let blanks = vec![32u8, 32u8, 32u8, 32u8, 32u8, 32u8, 32u8, 32u8];
        proof {
            assert(all_ascii(blanks@));
        }
        append_bytes(out, &blanks);
        proof {
            assert(out@ =~= old(out)@ + title_bytes(year as int, month as int) + header_bytes()
                + spaces(3) + spaces(8 * (ind + 1)));
        }
        ind = ind + 1;
    }
    render_grid(out, fs, year, month, wd1);
    proof {
        assert(final(out)@ =~= old(out)@ + month_bytes(fs@, year as int, month as int));
    }
}

/// Append the month/year title line, centred.
fn render_title(out: &mut Vec<u8>, year: u64, month: u64)
    requires
        1 <= year <= 9999,
        1 <= month <= 12,
    ensures
        final(out)@ == old(out)@ + title_bytes(year as int, month as int),
        all_ascii(old(out)@) ==> all_ascii(final(out)@),
{
    let mut title: Vec<u8> = Vec::new();
    push_dec(&mut title, month);
    title.push(47u8);
    push_dec(&mut title, year);
    proof {
        crate::format::lemma_dec_bytes_ascii(month as int);
        crate::format::lemma_dec_bytes_ascii(year as int);
        assert(title@ =~= dec_bytes(month as int) + seq![47u8] + dec_bytes(year as int));
        assert(all_ascii(title@));
    }
    let pad: usize = if title.len() < 68 {
        (68 - title.len()) / 2
    } else {
        0
    };
    let mut p: usize = 0;
    while p < pad
        invariant
            p <= pad,
            out@ == old(out)@ + spaces(p as int),
            all_ascii(old(out)@) ==> all_ascii(out@),
        decreases pad - p,
    {
        out.push(32u8);
        proof {
            assert(out@ =~= old(out)@ + spaces(p + 1 as int));
        }
        p = p + 1;
    }
    append_bytes(out, &title);
    out.push(10u8);
    proof {
        assert(final(out)@ =~= old(out)@ + title_bytes(year as int, month as int));
    }
}

/// Append the grid of all the month's days, starting a row at the given
/// weekday, then its closing subtotal and summary.
#[verifier::rlimit(100)]
fn render_grid(out: &mut Vec<u8>, fs: &Vec<Fragment>, year: u64, month: u64, wd1: u64)
    requires
        frags_well_formed(fs@),
        1 <= year <= 9999,
        1 <= month <= 12,
        wd1 == weekday_of(day_index_of(year as int, month as int, 1)),
        wd1 < 7,
    ensures
        final(out)@ == old(out)@ + grid_from(
            fs@,
            year as int,
            month as int,
            1,
            0,
            wd1 as int,
            0,
            None,
        ),
        all_ascii(old(out)@) ==> all_ascii(final(out)@),
{
    let dim = days_in_month(year, month);
    let mut week_minutes: u64 = 0;
    let mut row_cells: u64 = wd1;
    let mut month_minutes: u64 = 0;
    let mut month_cost: Option<u64> = None;
    let mut day: u64 = 1;
    while day <= dim
        invariant
            1 <= day <= dim + 1,
            dim == days_in_month_of(year as int, month as int),
            28 <= dim <= 31,
            1 <= year <= 9999,
            1 <= month <= 12,
            frags_well_formed(fs@),
            week_minutes <= MAX_SUM_MINUTES,
            month_minutes <= MAX_SUM_MINUTES,
            match month_cost {
                Some(c) => c <= MAX_SUM_COST,
                None => true,
            },
            row_cells <= 7,
            out@ + grid_from(
                fs@,
                year as int,
                month as int,
                day as int,
                week_minutes as int,
                row_cells as int,
                month_minutes as int,
                match month_cost {
                    Some(c) => Some(c as int),
                    None => None,
                },
            ) == old(out)@ + grid_from(
                fs@,
                year as int,
                month as int,
                1,
                0,
                wd1 as int,
                0,
                None,
            ),
            all_ascii(old(out)@) ==> all_ascii(out@),
        decreases dim + 1 - day,
    {
        let di = crate::date_time::day_index_from_ymd(year, month, day);
        let wd = (di + 1) % 7;
        if wd == 0 && day > 1 {
            push_padded_hours(out, week_minutes, 8);
            out.push(10u8);
            week_minutes = 0;
            row_cells = 0;
            push_padded_dec(out, day, 3);
        }
        if day_present(fs, di) {
            let dm = day_minutes(fs, di);
            push_padded_hours(out, dm, 8);
            week_minutes = if week_minutes + dm > MAX_SUM_MINUTES {
                MAX_SUM_MINUTES
            } else {
                week_minutes + dm
            };
            month_minutes = if month_minutes + dm > MAX_SUM_MINUTES {
                MAX_SUM_MINUTES
            } else {
                month_minutes + dm
            };
            match day_cost(fs, di) {
                Some(dc) => {
                    let before: u64 = match month_cost {
                        Some(c) => c,
                        None => 0,
                    };
                    month_cost = Some(
                        if before + dc > MAX_SUM_COST {
                            MAX_SUM_COST
                        } else {
                            before + dc
                        },
                    );
                },
                None => {},
            }
        } else {
            let dash = vec![32u8, 32u8, 32u8, 32u8, 32u8, 32u8, 32u8, 45u8];
            proof {
                assert(dash@ =~= dash_cell());
                assert(all_ascii(dash@));
            }
            append_bytes(out, &dash);
        }
        if row_cells < 7 {
            row_cells = row_cells + 1;
        }
        day = day + 1;
    }
    render_closing(out, year, month, week_minutes, row_cells, month_minutes, month_cost);
    proof {
        assert(final(out)@ =~= old(out)@ + grid_from(
            fs@,
            year as int,
            month as int,
            1,
            0,
            wd1 as int,
            0,
            None,
        ));
    }
}

/// Append the month's closing: the fill of the last row, its week subtotal,
/// and the month summary line.
fn render_closing(
    out: &mut Vec<u8>,
    year: u64,
    month: u64,
    week_minutes: u64,
    row_cells: u64,
    month_minutes: u64,
    month_cost: Option<u64>,
)
    requires
        1 <= year <= 9999,
        1 <= month <= 12,
        week_minutes <= MAX_SUM_MINUTES,
        month_minutes <= MAX_SUM_MINUTES,
        match month_cost {
            Some(c) => c <= MAX_SUM_COST,
            None => true,
        },
        row_cells <= 7,
    ensures
        final(out)@ == old(out)@ + spaces(8 * (7 - row_cells)) + pad_left_bytes(
            hours_bytes(week_minutes as int),
            8,
        ) + seq![10u8] + month_line_bytes(
            year as int,
            month as int,
            month_minutes as int,
            match month_cost {
                Some(c) => Some(c as int),
                None => None,
            },
        ),
        all_ascii(old(out)@) ==> all_ascii(final(out)@),
{
    let mut fill = row_cells;
    while fill < 7
        invariant
            row_cells <= fill <= 7,
            out@ == old(out)@ + spaces(8 * (fill - row_cells)),
            all_ascii(old(out)@) ==> all_ascii(out@),
        decreases 7 - fill,
    {
        let blanks = vec![32u8, 32u8, 32u8, 32u8, 32u8, 32u8, 32u8, 32u8];
        proof {
            assert(all_ascii(blanks@));
        }
        append_bytes(out, &blanks);
        proof {
            assert(out@ =~= old(out)@ + spaces(8 * (fill + 1 - row_cells)));
        }
        fill = fill + 1;
    }
    push_padded_hours(out, week_minutes, 8);
    out.push(10u8);
    push_month_name(out, month);
    out.push(32u8);
    push_dec(out, year);
    out.push(58u8);
    out.push(32u8);
    push_hours(out, month_minutes);
    let hl = vec![32u8, 104u8, 111u8, 117u8, 114u8, 115u8];
    proof {
        assert(hl@ =~= lit_hours());
        assert(all_ascii(hl@));
    }
    append_bytes(out, &hl);
    match month_cost {
        Some(c) => {
            let pl = vec![32u8, 61u8, 32u8, 36u8];
            proof {
                assert(pl@ =~= lit_pay());
                assert(all_ascii(pl@));
            }
            append_bytes(out, &pl);
            push_pay_cents(out, (c + 30) / 60);
        },
        None => {},
    }
    out.push(10u8);
    out.push(10u8);
    proof {
        assert(final(out)@ =~= old(out)@ + spaces(8 * (7 - row_cells)) + pad_left_bytes(
            hours_bytes(week_minutes as int),
            8,
        ) + seq![10u8] + month_line_bytes(
            year as int,
            month as int,
            month_minutes as int,
            match month_cost {
                Some(c) => Some(c as int),
                None => None,
            },
        ));
    }
}

/// Append a month's three-letter name.
fn push_month_name(out: &mut Vec<u8>, month: u64)
    requires
        1 <= month <= 12,
    ensures
        final(out)@ == old(out)@ + month_name_bytes(month as int),
        all_ascii(old(out)@) ==> all_ascii(final(out)@),
{
    let name: Vec<u8> = if month == 1 {
        vec![74u8, 97u8, 110u8]
    } else if month == 2 {
        vec![70u8, 101u8, 98u8]
    } else if month == 3 {
        vec![77u8, 97u8, 114u8]
    } else if month == 4 {
        vec![65u8, 112u8, 114u8]
    } else if month == 5 {
        vec![77u8, 97u8, 121u8]
    } else if month == 6 {
        vec![74u8, 117u8, 110u8]
    } else if month == 7 {
        vec![74u8, 117u8, 108u8]
    } else if month == 8 {
        vec![65u8, 117u8, 103u8]
    } else if month == 9 {
        vec![83u8, 101u8, 112u8]
    } else if month == 10 {
        vec![79u8, 99u8, 116u8]
    } else if month == 11 {
        vec![78u8, 111u8, 118u8]
    } else {
        vec![68u8, 101u8, 99u8]
    };
    proof {
        assert(name@ =~= month_name_bytes(month as int));
        assert(all_ascii(name@));
    }
    append_bytes(out, &name);
}

/// Render the calendar report: one block per month that holds a fragment,
/// years ascending and months ascending within each year (chronological,
/// never by insertion order), each block the exact `month_bytes` grid of the
/// fragments -- every day of the month a cell, a day without work a dash --
/// followed by the overall totals line.  The fragments are exactly
/// `spec_fragments` of the entries, and the bound years cover every
/// fragment.
pub fn report(jobs: &JobList, context: &Context) -> (r: String)
    requires
        jobs.well_formed(),
        context.well_formed(),
        entries_measurable(jobs.jobs@, context.current),
        spec_hours_overall(jobs.jobs@, jobs.configuration, context.current) <= MAX_SUM_MINUTES,
        match spec_pay_overall(jobs.jobs@, jobs.configuration, context.current) {
            Some(p) => p <= MAX_SUM_COST,
            None => true,
        },
    ensures
        exists|fsv: Seq<Fragment>, y_lo: int, y_hi: int|
            {
                &&& fsv.map_values(|f: Fragment| f@) == spec_fragments(
                    jobs.jobs@,
                    jobs.configuration,
                    context.current,
                )
                &&& frags_well_formed(fsv)
                &&& forall|i: int|
                    0 <= i < fsv.len() ==> y_lo <= crate::date_time::spec_ymd_of(
                        (#[trigger] fsv[i]).day as int,
                    ).0 <= y_hi
                &&& r@ == crate::format::ascii_chars_of(
                    months_bytes(fsv, y_lo, 1, y_hi) + total_line_bytes(
                        jobs.jobs@.len() as int,
                        spec_hours_overall(jobs.jobs@, jobs.configuration, context.current),
                        spec_pay_overall(jobs.jobs@, jobs.configuration, context.current),
                    ),
                )
            },
{
    let frags = collect_fragments(jobs, &context.current);
    let mut out: Vec<u8> = Vec::new();
    let ghost mut g_lo: int = 1;
    let ghost mut g_hi: int = 0;
    proof {
        assert(all_ascii(out@));
    }
    if frags.len() > 0 {
        let mut min_day = frags[0].day;
        let mut max_day = frags[0].day;
        let mut i: usize = 0;
        proof {
            assert(frags@[0].well_formed());
        }
        while i < frags.len()
            invariant
                i <= frags@.len(),
                frags_well_formed(frags@),
                frags@.len() > 0,
                min_day <= max_day < 3_660_000,
                forall|k: int| 0 <= k < i ==> min_day <= (#[trigger] frags@[k]).day <= max_day,
            decreases frags@.len() - i,
        {
            proof {
                assert(frags@[i as int].well_formed());
            }
            if frags[i].day < min_day {
                min_day = frags[i].day;
            }
            if frags[i].day > max_day {
                max_day = frags[i].day;
            }
            i = i + 1;
        }
        let (y0, m0, d0) = ymd_from_day_index(min_day);
        let (y1, m1, d1) = ymd_from_day_index(max_day);
        proof {
            crate::date_time::lemma_ymd_of(y0 as int, m0 as int, d0 as int);
            crate::date_time::lemma_ymd_of(y1 as int, m1 as int, d1 as int);
            crate::date_time::lemma_day_index_range(y1 as int, m1 as int, d1 as int);
            crate::date_time::lemma_days_before_year_bounds(y1 as int);
            g_lo = y0 as int;
            g_hi = y1 as int;
            assert forall|k: int| 0 <= k < frags@.len() implies g_lo
                <= crate::date_time::spec_ymd_of((#[trigger] frags@[k]).day as int).0
                <= g_hi by {
                assert(frags@[k].well_formed());
                crate::date_time::lemma_year_of_day_monotone(
                    min_day as int,
                    frags@[k].day as int,
                );
                crate::date_time::lemma_year_of_day_monotone(
                    frags@[k].day as int,
                    max_day as int,
                );
            }
            assert(months_bytes(frags@, g_lo, 1, g_hi) =~= out@ + months_bytes(
                frags@,
                y0 as int,
                1,
                g_hi,
            ));
        }
        let mut y = y0;
        while y <= y1 && y <= 9999
            invariant
                frags_well_formed(frags@),
                1 <= y0 <= y,
                g_lo == y0 as int,
                g_hi == y1 as int,
                y1 < 20000,
                months_bytes(frags@, g_lo, 1, g_hi) == out@ + months_bytes(
                    frags@,
                    y as int,
                    1,
                    g_hi,
                ),
                all_ascii(out@),
            decreases y1 + 1 - y,
        {
            let mut m: u64 = 1;
            while m <= 12
                invariant
                    frags_well_formed(frags@),
                    1 <= y <= 9999,
                    y <= y1,
                    g_hi == y1 as int,
                    1 <= m <= 13,
                    months_bytes(frags@, g_lo, 1, g_hi) == out@ + months_bytes(
                        frags@,
                        y as int,
                        m as int,
                        g_hi,
                    ),
                    all_ascii(out@),
                decreases 13 - m,
            {
                if month_present(&frags, y, m) {
                    render_month(&mut out, &frags, y, m);
                }
                m = m + 1;
            }
            y = y + 1;
        }
        proof {
            assert(months_bytes(frags@, y as int, 1, g_hi) =~= Seq::<u8>::empty());
            assert(out@ =~= months_bytes(frags@, g_lo, 1, g_hi));
        }
    } else {
        proof {
            assert(months_bytes(frags@, g_lo, 1, g_hi) =~= Seq::<u8>::empty());
        }
    }
    let ghost grid = out@;
    proof {
        assert(grid == months_bytes(frags@, g_lo, 1, g_hi));
    }
    let hours = jobs.hours_overall(&context.current);
    let pay = jobs.pay_overall(&context.current);
    let count = jobs.len();
    push_total_line(&mut out, count as u64, hours, pay);
    let r = string_from_ascii(out);
    proof {
        assert(r@ == crate::format::ascii_chars_of(
            months_bytes(frags@, g_lo, 1, g_hi) + total_line_bytes(
                jobs.jobs@.len() as int,
                spec_hours_overall(jobs.jobs@, jobs.configuration, context.current),
                spec_pay_overall(jobs.jobs@, jobs.configuration, context.current),
            ),
        ));
    }
    r
}

} // verus!
