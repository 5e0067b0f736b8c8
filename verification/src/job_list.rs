//! An indexed list of jobs extracted from the full ledger.
//!
//! Each entry keeps the job's original position in the ledger, so results can
//! be reported by that position no matter how the list was filtered.  The
//! list carries a copy of the configuration in effect when it was built.

use vstd::prelude::*;

use crate::configuration::Configuration;
use crate::configuration::Properties;
use crate::configuration::spec_resolve;
use crate::date_time::DateTime;
use crate::error::Error;
use crate::job::Job;
use crate::job::rounded_to;
use crate::tag_set::TagSet;
use crate::tag_set::labels_of;
use crate::tag_set::seq_insert_all;

verus! {

/// The full ledger: an ordered collection of jobs with its configuration.
#[derive(Debug)]
pub struct Jobs {
    pub jobs: Vec<Job>,
    pub configuration: Configuration,
}

impl Jobs {
    /// Every job and the configuration are well formed.
    pub open spec fn well_formed(self) -> bool {
        &&& self.configuration.well_formed()
        &&& forall|i: int| 0 <= i < self.jobs@.len() ==> (#[trigger] self.jobs@[i]).well_formed()
    }
}

/// Hours of one job under a configuration, in minutes rounded to the
/// resolved record's resolution.
pub open spec fn spec_job_hours(j: Job, c: Configuration, current: DateTime) -> int {
    rounded_to(
        j.spec_end_minutes(current) - j.start.minutes,
        spec_resolve(j.tags@, c).1.resolution as int,
    )
}

/// Pay of one job under a configuration, in cents-per-hour times minutes, or
/// nothing where the resolved record has no rate.
pub open spec fn spec_job_pay(j: Job, c: Configuration, current: DateTime) -> Option<int> {
    match spec_resolve(j.tags@, c).1.rate {
        Some(rate) => Some(rate * spec_job_hours(j, c, current)),
        None => None,
    }
}

/// Sum of two optional amounts; absent means "not applicable", which an
/// amount on either side outweighs.
pub open spec fn opt_add(a: Option<int>, b: Option<int>) -> Option<int> {
    match (a, b) {
        (Some(x), Some(y)) => Some(x + y),
        (Some(x), None) => Some(x),
        (None, Some(y)) => Some(y),
        (None, None) => None,
    }
}

/// Total hours of a list of entries, in rounded minutes.
pub open spec fn spec_hours_overall(
    entries: Seq<(usize, Job)>,
    c: Configuration,
    current: DateTime,
) -> int
    decreases entries.len(),
{
    if entries.len() == 0 {
        0
    } else {
        spec_hours_overall(entries.drop_last(), c, current) + spec_job_hours(
            entries.last().1,
            c,
            current,
        )
    }
}

/// Total pay of a list of entries, in cents-per-hour times minutes; absent
/// when no entry's resolved record carries a rate.
pub open spec fn spec_pay_overall(
    entries: Seq<(usize, Job)>,
    c: Configuration,
    current: DateTime,
) -> Option<int>
    decreases entries.len(),
{
    if entries.len() == 0 {
        None
    } else {
        opt_add(
            spec_pay_overall(entries.drop_last(), c, current),
            spec_job_pay(entries.last().1, c, current),
        )
    }
}

/// The tags of all entries' jobs, first occurrences first.
pub open spec fn spec_all_tags(entries: Seq<(usize, Job)>) -> Seq<Seq<char>>
    decreases entries.len(),
{
    if entries.len() == 0 {
        Seq::empty()
    } else {
        seq_insert_all(spec_all_tags(entries.drop_last()), entries.last().1.tags@)
    }
}

/// An entry may measure an open job only up to a current instant not before
/// the job's start.
pub open spec fn entries_measurable(entries: Seq<(usize, Job)>, current: DateTime) -> bool {
    forall|i: int|
        0 <= i < entries.len() && (#[trigger] entries[i]).1.spec_is_open()
            ==> current.well_formed() && entries[i].1.start.minutes <= current.minutes
}

/// A job's rounded hours are nonnegative and exceed its length by less than
/// half the rounding unit.
pub proof fn lemma_rounded_bounds(m: int, res: int)
    requires
        0 <= m,
        1 <= res <= 1440,
    ensures
        0 <= rounded_to(m, res) <= m + 720,
{
    vstd::arithmetic::div_mod::lemma_remainder_lower(m + res / 2, res);
    vstd::arithmetic::div_mod::lemma_div_pos_is_pos(m + res / 2, res);
    vstd::arithmetic::mul::lemma_mul_nonnegative((m + res / 2) / res, res);
}

/// Every entry of a well-formed list contributes nonnegative hours and pay,
/// so totals only grow as entries are appended.
pub proof fn lemma_totals_monotone(
    entries: Seq<(usize, Job)>,
    c: Configuration,
    current: DateTime,
    i: int,
)
    requires
        0 <= i <= entries.len(),
        c.well_formed(),
        forall|k: int| 0 <= k < entries.len() ==> (#[trigger] entries[k]).1.well_formed(),
        entries_measurable(entries, current),
    ensures
        0 <= spec_hours_overall(entries.take(i), c, current) <= spec_hours_overall(
            entries,
            c,
            current,
        ),
        match spec_pay_overall(entries.take(i), c, current) {
            Some(p) => 0 <= p && spec_pay_overall(entries, c, current) is Some && p
                <= spec_pay_overall(entries, c, current).unwrap(),
            None => true,
        },
        match spec_pay_overall(entries, c, current) {
            Some(p) => 0 <= p,
            None => true,
        },
    decreases entries.len() - i,
{
    lemma_resolved_well_formed(entries, c);
    if i == entries.len() {
        assert(entries.take(i) =~= entries);
        lemma_totals_nonneg(entries, c, current);
    } else {
        lemma_totals_monotone(entries, c, current, i + 1);
        let pre = entries.take(i);
        let nxt = entries.take(i + 1);
        assert(nxt.drop_last() =~= pre);
        assert(nxt.last() == entries[i]);
        let j = entries[i].1;
        lemma_rounded_bounds(
            j.spec_end_minutes(current) - j.start.minutes,
            spec_resolve(j.tags@, c).1.resolution as int,
        );
        lemma_totals_nonneg(pre, c, current);
        match spec_resolve(j.tags@, c).1.rate {
            Some(rate) => {
                vstd::arithmetic::mul::lemma_mul_nonnegative(
                    rate as int,
                    spec_job_hours(j, c, current),
                );
            },
            None => {},
        }
    }
}

/// Totals of a well-formed list are nonnegative.
proof fn lemma_totals_nonneg(entries: Seq<(usize, Job)>, c: Configuration, current: DateTime)
    requires
        c.well_formed(),
        forall|k: int| 0 <= k < entries.len() ==> (#[trigger] entries[k]).1.well_formed(),
        entries_measurable(entries, current),
    ensures
        0 <= spec_hours_overall(entries, c, current),
        match spec_pay_overall(entries, c, current) {
            Some(p) => 0 <= p,
            None => true,
        },
    decreases entries.len(),
{
    lemma_resolved_well_formed(entries, c);
    if entries.len() > 0 {
        assert forall|k: int| 0 <= k < entries.drop_last().len() implies (
        #[trigger] entries.drop_last()[k]).1.well_formed() by {
            assert(entries[k].1.well_formed());
        }
        assert forall|k: int|
            0 <= k < entries.drop_last().len() && (#[trigger] entries.drop_last()[k]).1
                .spec_is_open() implies current.well_formed()
            && entries.drop_last()[k].1.start.minutes <= current.minutes by {
            assert(entries[k].1 == entries.drop_last()[k].1);
        }
        lemma_totals_nonneg(entries.drop_last(), c, current);
        let j = entries.last().1;
        assert(entries[entries.len() - 1].1.well_formed());
        lemma_rounded_bounds(
            j.spec_end_minutes(current) - j.start.minutes,
            spec_resolve(j.tags@, c).1.resolution as int,
        );
        match spec_resolve(j.tags@, c).1.rate {
            Some(rate) => {
                vstd::arithmetic::mul::lemma_mul_nonnegative(
                    rate as int,
                    spec_job_hours(j, c, current),
                );
            },
            None => {},
        }
    }
}

/// What a tag sequence resolves to under a well-formed configuration is well
/// formed.
pub proof fn lemma_resolve_well_formed(tags: Seq<Seq<char>>, c: Configuration)
    requires
        c.well_formed(),
    ensures
        spec_resolve(tags, c).1.well_formed(),
    decreases tags.len(),
{
    if tags.len() > 0 {
        lemma_override_well_formed(c.tags@, tags[0], c);
        lemma_resolve_well_formed(tags.skip(1), c);
    }
}

/// Any override of a well-formed configuration is well formed.
proof fn lemma_override_well_formed(
    entries: Seq<(String, Properties)>,
    t: Seq<char>,
    c: Configuration,
)
    requires
        forall|i: int| 0 <= i < entries.len() ==> (#[trigger] entries[i]).1.well_formed(),
    ensures
        match crate::configuration::spec_override(entries, t) {
            Some(p) => p.well_formed(),
            None => true,
        },
    decreases entries.len(),
{
    if entries.len() > 0 {
        assert(entries[0].1.well_formed());
        assert forall|i: int| 0 <= i < entries.skip(1).len() implies (#[trigger] entries.skip(
            1,
        )[i]).1.well_formed() by {
            assert(entries[i + 1].1.well_formed());
        }
        lemma_override_well_formed(entries.skip(1), t, c);
    }
}

/// Every entry's resolved record under a well-formed configuration is well
/// formed.
proof fn lemma_resolved_well_formed(entries: Seq<(usize, Job)>, c: Configuration)
    requires
        c.well_formed(),
    ensures
        forall|k: int|
            0 <= k < entries.len() ==> spec_resolve(
                (#[trigger] entries[k]).1.tags@,
                c,
            ).1.well_formed(),
{
    assert forall|k: int| 0 <= k < entries.len() implies spec_resolve(
        (#[trigger] entries[k]).1.tags@,
        c,
    ).1.well_formed() by {
        lemma_resolve_well_formed(entries[k].1.tags@, c);
    }
}

/// A filtered, position-preserving view over the ledger, with the owning
/// configuration.
#[derive(Debug)]
pub struct JobList {
    /// The entries: each job with its original position in the full ledger.
    pub jobs: Vec<(usize, Job)>,
    /// Copy of the configuration of the ledger the list was built from.
    pub configuration: Configuration,
}

impl JobList {
    /// Entries and configuration are well formed.
    pub open spec fn well_formed(self) -> bool {
        &&& self.configuration.well_formed()
        &&& forall|i: int| 0 <= i < self.jobs@.len() ==> (#[trigger] self.jobs@[i]).1.well_formed()
    }

    /// An empty list owning a copy of the given ledger's configuration; the
    /// jobs themselves are not copied.
    pub fn new_from(jobs: &Jobs) -> (r: JobList)
        ensures
            r.jobs@.len() == 0,
            forall|t: Seq<char>|
                crate::configuration::spec_override(r.configuration.tags@, t)
                    == crate::configuration::spec_override(jobs.configuration.tags@, t),
            r.configuration.base == jobs.configuration.base,
            jobs.configuration.well_formed() ==> r.well_formed(),
    {
        JobList { jobs: Vec::new(), configuration: jobs.configuration.duplicate() }
    }

    /// Append a job under its original ledger position.
    pub fn push(&mut self, pos: usize, job: Job)
        ensures
            final(self).jobs@ == old(self).jobs@.push((pos, job)),
            final(self).configuration == old(self).configuration,
    {
        self.jobs.push((pos, job));
    }

    /// The entries, in order.
    pub fn iter(&self) -> (r: &Vec<(usize, Job)>)
        ensures
            r@ == self.jobs@,
    {
        &self.jobs
    }

    /// Whether the list has no entries.
    pub fn is_empty(&self) -> (r: bool)
        ensures
            r == (self.jobs@.len() == 0),
    {
        self.jobs.is_empty()
    }

    /// Number of entries.
    pub fn len(&self) -> (r: usize)
        ensures
            r == self.jobs@.len(),
    {
        self.jobs.len()
    }

    /// Keep only the last `count` entries.  Asking for more entries than the
    /// list holds is an error reporting the requested and available counts,
    /// and leaves the list unchanged.
    pub fn drain(&mut self, count: usize) -> (r: Result<(), Error>)
        ensures
            final(self).configuration == old(self).configuration,
            match r {
                Ok(()) => count <= old(self).jobs@.len() && final(self).jobs@ == old(
                    self,
                ).jobs@.skip(old(self).jobs@.len() - count),
                Err(e) => e == Error::ToFewJobs(count, old(self).jobs@.len() as usize) && count
                    > old(self).jobs@.len() && *final(self) == *old(self),
            },
    {
        if count > self.jobs.len() {
            return Err(Error::ToFewJobs(count, self.jobs.len()));
        }
        let tail = self.jobs.split_off(self.jobs.len() - count);
        self.jobs = tail;
        Ok(())
    }

    /// Keep only the last `count` entries, or all of them if fewer are
    /// present; never an error.  Reports how many entries remain.
    pub fn limit(&mut self, count: usize) -> (r: usize)
        ensures
            final(self).configuration == old(self).configuration,
            r == final(self).jobs@.len(),
            count >= old(self).jobs@.len() ==> final(self).jobs@ == old(self).jobs@,
            count < old(self).jobs@.len() ==> final(self).jobs@ == old(self).jobs@.skip(
                old(self).jobs@.len() - count,
            ),
    {
        if count >= self.jobs.len() {
            proof {
                assert(self.jobs@.skip(0) =~= self.jobs@);
            }
            return self.jobs.len();
        }
        let tail = self.jobs.split_off(self.jobs.len() - count);
        self.jobs = tail;
        self.jobs.len()
    }

    /// The union of all entries' tags, in order of first occurrence.
    pub fn tags(&self) -> (r: TagSet)
        ensures
            r@ == spec_all_tags(self.jobs@),
            self.well_formed() ==> r.well_formed(),
    {
        let ghost entries = self.jobs@;
        let mut out = TagSet::new();
        let mut i: usize = 0;
        while i < self.jobs.len()
            invariant
                i <= entries.len(),
                entries == self.jobs@,
                out@ == spec_all_tags(entries.take(i as int)),
                self.well_formed() ==> out.well_formed(),
            decreases entries.len() - i,
        {
            let copy = self.jobs[i].1.tags.duplicate();
            out.insert_many(copy.0);
            proof {
                assert(entries.take(i + 1 as int).drop_last() =~= entries.take(i as int));
                assert(entries.take(i + 1 as int).last() == entries[i as int]);
                assert(labels_of(copy.0@) == entries[i as int].1.tags@);
            }
            i = i + 1;
        }
        proof {
            assert(entries.take(entries.len() as int) =~= entries);
        }
        out
    }

    /// The original ledger positions represented, in entry order.
    pub fn positions(&self) -> (r: Vec<usize>)
        ensures
            r@ == self.jobs@.map_values(|e: (usize, Job)| e.0),
    {
        let mut out: Vec<usize> = Vec::new();
        let mut i: usize = 0;
        while i < self.jobs.len()
            invariant
                i <= self.jobs@.len(),
                out@ =~= self.jobs@.take(i as int).map_values(|e: (usize, Job)| e.0),
            decreases self.jobs@.len() - i,
        {
            out.push(self.jobs[i].0);
            proof {
                assert(out@ =~= self.jobs@.take(i + 1 as int).map_values(
                    |e: (usize, Job)| e.0,
                ));
            }
            i = i + 1;
        }
        proof {
            assert(self.jobs@.take(self.jobs@.len() as int) =~= self.jobs@);
        }
        out
    }

    /// Resolve a tag set against the list's configuration.
    pub fn get_configuration(&self, tags: &TagSet) -> (r: Properties)
        ensures
            r == spec_resolve(tags@, self.configuration).1,
    {
        self.configuration.get(tags)
    }

    /// Resolve a tag set against the list's configuration, with the tag that
    /// won (or the empty label for the base record).
    pub fn get_configuration_with_tag(&self, tags: &TagSet) -> (r: (String, Properties))
        ensures
            (r.0@, r.1) == spec_resolve(tags@, self.configuration),
    {
        self.configuration.get_and_why(tags)
    }

    /// Sum of every entry's tag-resolved hours, in rounded minutes.  Open
    /// jobs are measured up to `current`.
    pub fn hours_overall(&self, current: &DateTime) -> (r: u64)
        requires
            self.well_formed(),
            entries_measurable(self.jobs@, *current),
            spec_hours_overall(self.jobs@, self.configuration, *current) <= u64::MAX,
        ensures
            r == spec_hours_overall(self.jobs@, self.configuration, *current),
    {
        let ghost entries = self.jobs@;
        let mut total: u64 = 0;
        let mut i: usize = 0;
        while i < self.jobs.len()
            invariant
                i <= entries.len(),
                entries == self.jobs@,
                self.well_formed(),
                entries_measurable(entries, *current),
                spec_hours_overall(entries, self.configuration, *current) <= u64::MAX,
                total == spec_hours_overall(entries.take(i as int), self.configuration, *current),
            decreases entries.len() - i,
        {
            let props = self.configuration.get(&self.jobs[i].1.tags);
            proof {
                lemma_resolve_well_formed(entries[i as int].1.tags@, self.configuration);
                assert(entries[i as int].1.well_formed());
                lemma_totals_monotone(entries, self.configuration, *current, i + 1);
                assert(entries.take(i + 1 as int).drop_last() =~= entries.take(i as int));
                assert(entries.take(i + 1 as int).last() == entries[i as int]);
            }
            let h = self.jobs[i].1.hours(&props, current);
            total = total + h;
            i = i + 1;
        }
        proof {
            assert(entries.take(entries.len() as int) =~= entries);
        }
        total
    }

    /// Sum of every entry's pay, in cents-per-hour times rounded minutes,
    /// over exactly the entries whose resolved record carries a rate; absent
    /// (not zero) when no entry carries one.  Open jobs are measured up to
    /// `current`.
    pub fn pay_overall(&self, current: &DateTime) -> (r: Option<u64>)
        requires
            self.well_formed(),
            entries_measurable(self.jobs@, *current),
            match spec_pay_overall(self.jobs@, self.configuration, *current) {
                Some(p) => p <= u64::MAX,
                None => true,
            },
        ensures
            match (r, spec_pay_overall(self.jobs@, self.configuration, *current)) {
                (Some(a), Some(b)) => a == b,
                (None, None) => true,
                _ => false,
            },
    {
        let ghost entries = self.jobs@;
        let mut sum: u64 = 0;
        let mut has_payment: bool = false;
        let mut i: usize = 0;
        while i < self.jobs.len()
            invariant
                i <= entries.len(),
                entries == self.jobs@,
                self.well_formed(),
                entries_measurable(entries, *current),
                match spec_pay_overall(entries, self.configuration, *current) {
                    Some(p) => p <= u64::MAX,
                    None => true,
                },
                match spec_pay_overall(entries.take(i as int), self.configuration, *current) {
                    Some(p) => has_payment && sum == p,
                    None => !has_payment && sum == 0,
                },
            decreases entries.len() - i,
        {
            let props = self.configuration.get(&self.jobs[i].1.tags);
            proof {
                lemma_resolve_well_formed(entries[i as int].1.tags@, self.configuration);
                assert(entries[i as int].1.well_formed());
                lemma_totals_monotone(entries, self.configuration, *current, i + 1);
                lemma_totals_monotone(entries, self.configuration, *current, i as int);
                assert(entries.take(i + 1 as int).drop_last() =~= entries.take(i as int));
                assert(entries.take(i + 1 as int).last() == entries[i as int]);
            }
            match props.rate {
                Some(rate) => {
                    let h = self.jobs[i].1.hours(&props, current);
                    proof {
                        lemma_rounded_bounds(
                            entries[i as int].1.spec_end_minutes(*current)
                                - entries[i as int].1.start.minutes,
                            props.resolution as int,
                        );
                        vstd::arithmetic::mul::lemma_mul_nonnegative(rate as int, h as int);
                    }
                    sum = sum + rate * h;
                    has_payment = true;
                },
                None => {},
            }
            i = i + 1;
        }
        proof {
            assert(entries.take(entries.len() as int) =~= entries);
        }
        if has_payment {
            Some(sum)
        } else {
            None
        }
    }
}

} // verus!

verus! {

/// Pay is applicable exactly when some entry's resolved record carries a
/// rate: a list whose entries all resolve to unrated records has no pay (not
/// a zero pay), and one rated entry makes pay applicable.
pub proof fn lemma_pay_applicable(entries: Seq<(usize, Job)>, c: Configuration, current: DateTime)
    ensures
        (spec_pay_overall(entries, c, current) is Some) <==> exists|i: int|
            0 <= i < entries.len() && spec_resolve(
                (#[trigger] entries[i]).1.tags@,
                c,
            ).1.rate is Some,
    decreases entries.len(),
{
    if entries.len() > 0 {
        lemma_pay_applicable(entries.drop_last(), c, current);
        if spec_pay_overall(entries, c, current) is Some {
            if spec_job_pay(entries.last().1, c, current) is Some {
                assert(entries[entries.len() - 1] == entries.last());
            } else {
                let i = choose|i: int|
                    0 <= i < entries.drop_last().len() && spec_resolve(
                        (#[trigger] entries.drop_last()[i]).1.tags@,
                        c,
                    ).1.rate is Some;
                assert(entries[i] == entries.drop_last()[i]);
            }
        }
        if exists|i: int|
            0 <= i < entries.len() && spec_resolve(
                (#[trigger] entries[i]).1.tags@,
                c,
            ).1.rate is Some {
            let i = choose|i: int|
                0 <= i < entries.len() && spec_resolve(
                    (#[trigger] entries[i]).1.tags@,
                    c,
                ).1.rate is Some;
            if i == entries.len() - 1 {
                assert(entries.last() == entries[i]);
            } else {
                assert(entries.drop_last()[i] == entries[i]);
            }
        }
    }
}

/// One rendered entry: its one-based original ledger position and the
/// job's body, each entry ended by a blank line.
pub open spec fn entry_text(e: (usize, Job)) -> Seq<char> {
    "    Pos: "@ + crate::format::ascii_chars_of(
        crate::format::dec_bytes(crate::change::shown_position(e.0 as int)),
    ) + "\n"@ + crate::change::job_text(e.1) + "\n"@
}

/// The rendered entries, in list order.
pub open spec fn entries_text(entries: Seq<(usize, Job)>) -> Seq<char>
    decreases entries.len(),
{
    if entries.len() == 0 {
        Seq::empty()
    } else {
        entries_text(entries.drop_last()) + entry_text(entries.last())
    }
}

impl JobList {
    /// Render the list: every entry under its one-based original ledger
    /// position with its job body, then the overall totals line.
    pub fn render(&self, current: &DateTime) -> (r: String)
        requires
            self.well_formed(),
            entries_measurable(self.jobs@, *current),
            spec_hours_overall(self.jobs@, self.configuration, *current)
                <= crate::reports::MAX_SUM_MINUTES,
            match spec_pay_overall(self.jobs@, self.configuration, *current) {
                Some(p) => p <= crate::reports::MAX_SUM_COST,
                None => true,
            },
        ensures
            r@ == entries_text(self.jobs@) + crate::format::ascii_chars_of(
                crate::reports::total_line_bytes(
                    self.jobs@.len() as int,
                    spec_hours_overall(self.jobs@, self.configuration, *current),
                    spec_pay_overall(self.jobs@, self.configuration, *current),
                ),
            ),
    {
        let ghost entries = self.jobs@;
        let mut out = String::new();
        let mut i: usize = 0;
        while i < self.jobs.len()
            invariant
                i <= entries.len(),
                entries == self.jobs@,
                self.well_formed(),
                out@ == entries_text(entries.take(i as int)),
            decreases entries.len() - i,
        {
            proof {
                assert(entries.take(i + 1 as int).drop_last() =~= entries.take(i as int));
                assert(entries.take(i + 1 as int).last() == entries[i as int]);
            }
            out.append("    Pos: ");
            let pos = self.jobs[i].0;
            let pos1 = if pos < usize::MAX {
                pos + 1
            } else {
                pos
            };
            crate::format::append_dec(&mut out, pos1 as u64);
            out.append("\n");
            proof {
                assert(self.jobs@[i as int].1.well_formed());
            }
            crate::change::append_job_text(&mut out, &self.jobs[i].1);
            out.append("\n");
            proof {
                assert(out@ =~= entries_text(entries.take(i + 1 as int)));
            }
            i = i + 1;
        }
        proof {
            assert(entries.take(entries.len() as int) =~= entries);
        }
        let hours = self.hours_overall(current);
        let pay = self.pay_overall(current);
        let count = self.len();
        let mut total: Vec<u8> = Vec::new();
        proof {
            assert(crate::format::all_ascii(total@));
        }
        crate::reports::push_total_line(&mut total, count as u64, hours, pay);
        proof {
            assert(total@ =~= crate::reports::total_line_bytes(
                entries.len() as int,
                spec_hours_overall(entries, self.configuration, *current),
                spec_pay_overall(entries, self.configuration, *current),
            ));
        }
        crate::format::append_ascii(&mut out, total);
        out
    }
}

} // verus!

verus! {

/// The tags of all jobs of a ledger, first occurrences first.
pub open spec fn spec_ledger_tags(jobs: Seq<Job>) -> Seq<Seq<char>>
    decreases jobs.len(),
{
    if jobs.len() == 0 {
        Seq::empty()
    } else {
        seq_insert_all(spec_ledger_tags(jobs.drop_last()), jobs.last().tags@)
    }
}

impl Jobs {
    /// The ledger's tag index: every job's tags, in order of first
    /// occurrence.  A pure function of the ledger snapshot, computed once
    /// per invocation and passed explicitly wherever display order or
    /// membership of a tag is asked for (it decides nothing else).
    pub fn tag_index(&self) -> (r: TagSet)
        ensures
            r@ == spec_ledger_tags(self.jobs@),
            r.well_formed(),
    {
        let ghost all = self.jobs@;
        let mut out = TagSet::new();
        let mut i: usize = 0;
        while i < self.jobs.len()
            invariant
                i <= all.len(),
                all == self.jobs@,
                out@ == spec_ledger_tags(all.take(i as int)),
                out.well_formed(),
            decreases all.len() - i,
        {
            let copy = self.jobs[i].tags.duplicate();
            out.insert_many(copy.0);
            proof {
                assert(all.take(i + 1 as int).drop_last() =~= all.take(i as int));
                assert(all.take(i + 1 as int).last() == all[i as int]);
                assert(labels_of(copy.0@) == all[i as int].tags@);
            }
            i = i + 1;
        }
        proof {
            assert(all.take(all.len() as int) =~= all);
        }
        out
    }
}

} // verus!
