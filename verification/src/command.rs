//! Command inference: from loosely-constrained optional inputs to exactly
//! one command against the ledger.
//!
//! The resolution order of `Command::parse` is the disambiguation policy:
//! a forward start wins over a back-reference start, either wins over a bare
//! end, then the list, export, report and list-tags requests in that order,
//! then show-configuration, set-configuration and import, then a message or
//! tag amendment; anything else is an invalid invocation.

use vstd::prelude::*;

use crate::date_time::DateTime;
use crate::date_time::MAX_MINUTES;
use crate::date_time::saturated_minutes;
use crate::duration::Duration;
use crate::error::Error;
use crate::partial_date_time::PartialDateTime;

verus! {

/// The immutable snapshot a query carries: the current instant, fixed once
/// per invocation and passed explicitly.
#[derive(Clone, Copy, Debug, PartialEq, Eq, Structural)]
pub struct Context {
    pub current: DateTime,
}

impl Context {
    /// The snapshot's instant lies in machine range.
    pub open spec fn well_formed(self) -> bool {
        self.current.well_formed()
    }

    /// The snapshot's current instant.
    pub fn current(&self) -> (r: DateTime)
        ensures
            r == self.current,
    {
        self.current
    }
}

/// A time range for queries, bounded or unbounded on either side.
#[derive(Clone, Copy, Debug, PartialEq, Eq, Structural)]
pub struct Range {
    pub from: Option<DateTime>,
    pub to: Option<DateTime>,
}

/// The parsed optional fields of one invocation, as the argument tokenizer
/// hands them over.
pub struct Input {
    /// A forward start spec.
    pub start: Option<PartialDateTime>,
    /// A back-reference start spec (reuse the previous job's message and
    /// tags).
    pub back: Option<PartialDateTime>,
    /// An end spec.
    pub end: Option<PartialDateTime>,
    /// A duration, as an alternative to an end.
    pub duration: Option<Duration>,
    /// A message; the inner option distinguishes "ask for one" from one
    /// given.
    pub message: Option<Option<String>>,
    /// Tags, already split apart.
    pub tags: Option<Vec<String>>,
    /// A listing request with its range.
    pub list: Option<Range>,
    /// A report request with its range.
    pub report: Option<Range>,
    /// A CSV export request with its range.
    pub export: Option<Range>,
    /// The export's column selection.
    pub csv: String,
    /// A new rounding resolution, in minutes.
    pub resolution: Option<u32>,
    /// A new hourly rate, in cents.
    pub pay: Option<u64>,
    /// A new daily hours limit.
    pub max_hours: Option<u32>,
    /// A request to show the configuration.
    pub configuration: bool,
    /// A legacy-format import with its file name.
    pub legacy_import: Option<String>,
    /// A tag-listing request with its range.
    pub list_tags: Option<Range>,
}

impl Input {
    /// Every given time spec and duration is well formed.
    pub open spec fn well_formed(self) -> bool {
        &&& match self.start {
            Some(p) => p.well_formed(),
            None => true,
        }
        &&& match self.back {
            Some(p) => p.well_formed(),
            None => true,
        }
        &&& match self.end {
            Some(p) => p.well_formed(),
            None => true,
        }
        &&& match self.duration {
            Some(d) => d.well_formed(),
            None => true,
        }
    }
}

/// The one mutation or query an invocation stands for: the sole contract
/// between input parsing and ledger execution.
#[derive(Debug, PartialEq)]
pub enum Command {
    /// Start a new open job.
    Start { start: DateTime, message: Option<Option<String>>, tags: Option<Vec<String>> },
    /// Add a closed job.
    Add { start: DateTime, end: DateTime, message: Option<Option<String>>, tags: Option<
        Vec<String>,
    > },
    /// Like `Start`, but reuse the previous job's message and tags.
    Back { start: DateTime, message: Option<Option<String>>, tags: Option<Vec<String>> },
    /// Like `Add`, but reuse the previous job's message and tags.
    BackAdd { start: DateTime, end: DateTime, message: Option<Option<String>>, tags: Option<
        Vec<String>,
    > },
    /// End the open job.
    End { end: DateTime, message: Option<Option<String>>, tags: Option<Vec<String>> },
    /// Amend the open job's message or tags.
    MessageTags { message: Option<String>, tags: Option<Vec<String>> },
    /// List jobs.
    List { range: Range, tags: Option<Vec<String>> },
    /// Report jobs as a calendar.
    Report { range: Range, tags: Option<Vec<String>>, context: Context },
    /// Export jobs as CSV with the selected columns.
    ExportCSV { range: Range, tags: Option<Vec<String>>, context: Context, columns: String },
    /// Show the whole configuration.
    ShowConfiguration,
    /// Change configuration values, for the given tags or as the default.
    SetConfiguration {
        resolution: Option<u32>,
        pay: Option<u64>,
        tags: Option<Vec<String>>,
        max_hours: Option<u32>,
    },
    /// Import a ledger in the legacy format.
    LegacyImport { filename: String },
    /// List the tags in use.
    ListTags { range: Range, tags: Option<Vec<String>> },
}

/// Resolution of a start spec with an end spec, a duration, or neither, per
/// the rollover policy:
///
/// * a bare "current time" end marker resolves against now, and if that end
///   precedes the start, the *start* rolls back one day (the job began
///   yesterday before midnight);
/// * any other end resolves against the start (inheriting its date), and if
///   it precedes the start, the *end* rolls forward one day (the job crossed
///   midnight);
/// * a duration makes the end start-plus-duration;
/// * neither leaves the job open.
///
/// The first pair is the start's and end's minute counts, or the end absent
/// for an open job.
pub open spec fn spec_resolve_span(
    sp: PartialDateTime,
    end: Option<PartialDateTime>,
    duration: Option<Duration>,
    now: DateTime,
) -> (int, Option<int>) {
    let s0 = sp.spec_resolved(now);
    match end {
        Some(ep) => if ep is Current {
            let e = ep.spec_resolved(now);
            if e < s0 {
                (saturated_minutes(s0 - 1440), Some(e))
            } else {
                (s0, Some(e))
            }
        } else {
            let e0 = ep.spec_resolved(DateTime { minutes: s0 as u64 });
            if e0 < s0 {
                (s0, Some(saturated_minutes(e0 + 1440)))
            } else {
                (s0, Some(e0))
            }
        },
        None => match duration {
            Some(d) => (s0, Some(saturated_minutes(s0 + d.spec_minutes()))),
            None => (s0, None),
        },
    }
}

impl Command {
    /// Parse the invocation's fields into exactly one command.
    ///
    /// * `open_start`: the start of the ledger's open job, if one exists; a
    ///   bare end spec resolves against it rather than against now.
    /// * `context`: the current-time snapshot.
    ///
    /// An invocation matching none of the recognized combinations is an
    /// invalid invocation, reported as an error.
    pub fn parse(input: Input, open_start: Option<DateTime>, context: &Context) -> (r: Result<
        Command,
        Error,
    >)
        requires
            input.well_formed(),
            context.well_formed(),
            match open_start {
                Some(s) => s.well_formed(),
                None => true,
            },
        ensures
            ({
                let now = context.current;
                match input.start {
                    Some(sp) => {
                        let span = spec_resolve_span(sp, input.end, input.duration, now);
                        match span.1 {
                            Some(e) => r == Ok::<Command, Error>(
                                Command::Add {
                                    start: DateTime { minutes: span.0 as u64 },
                                    end: DateTime { minutes: e as u64 },
                                    message: input.message,
                                    tags: input.tags,
                                },
                            ),
                            None => r == Ok::<Command, Error>(
                                Command::Start {
                                    start: DateTime { minutes: span.0 as u64 },
                                    message: input.message,
                                    tags: input.tags,
                                },
                            ),
                        }
                    },
                    None => match input.back {
                        Some(bp) => {
                            let span = spec_resolve_span(bp, input.end, input.duration, now);
                            match span.1 {
                                Some(e) => r == Ok::<Command, Error>(
                                    Command::BackAdd {
                                        start: DateTime { minutes: span.0 as u64 },
                                        end: DateTime { minutes: e as u64 },
                                        message: input.message,
                                        tags: input.tags,
                                    },
                                ),
                                None => r == Ok::<Command, Error>(
                                    Command::Back {
                                        start: DateTime { minutes: span.0 as u64 },
                                        message: input.message,
                                        tags: input.tags,
                                    },
                                ),
                            }
                        },
                        None => match input.end {
                            Some(ep) => {
                                let reference = match open_start {
                                    Some(s) => s,
                                    None => now,
                                };
                                r == Ok::<Command, Error>(
                                    Command::End {
                                        end: DateTime {
                                            minutes: ep.spec_resolved(reference) as u64,
                                        },
                                        message: input.message,
                                        tags: input.tags,
                                    },
                                )
                            },
                            None => match input.list {
                                Some(range) => r == Ok::<Command, Error>(
                                    Command::List { range, tags: input.tags },
                                ),
                                None => match input.export {
                                    Some(range) => r == Ok::<Command, Error>(
                                        Command::ExportCSV {
                                            range,
                                            tags: input.tags,
                                            context: *context,
                                            columns: input.csv,
                                        },
                                    ),
                                    None => match input.report {
                                        Some(range) => r == Ok::<Command, Error>(
                                            Command::Report {
                                                range,
                                                tags: input.tags,
                                                context: *context,
                                            },
                                        ),
                                        None => match input.list_tags {
                                            Some(range) => r == Ok::<Command, Error>(
                                                Command::ListTags { range, tags: input.tags },
                                            ),
                                            None => spec_parse_rest(input, r),
                                        },
                                    },
                                },
                            },
                        },
                    },
                }
            }),
    {
        let now = context.current;
        if let Some(sp) = input.start {
            match resolve_span(&sp, &input.end, &input.duration, &now) {
                (start, Some(end)) => Ok(
                    Command::Add { start, end, message: input.message, tags: input.tags },
                ),
                (start, None) => Ok(
                    Command::Start { start, message: input.message, tags: input.tags },
                ),
            }
        } else if let Some(bp) = input.back {
            match resolve_span(&bp, &input.end, &input.duration, &now) {
                (start, Some(end)) => Ok(
                    Command::BackAdd { start, end, message: input.message, tags: input.tags },
                ),
                (start, None) => Ok(
                    Command::Back { start, message: input.message, tags: input.tags },
                ),
            }
        } else if let Some(ep) = input.end {
            let reference = match open_start {
                Some(s) => s,
                None => now,
            };
            let end = ep.resolve(&reference);
            Ok(Command::End { end, message: input.message, tags: input.tags })
        } else if let Some(range) = input.list {
            Ok(Command::List { range, tags: input.tags })
        } else if let Some(range) = input.export {
            Ok(
                Command::ExportCSV {
                    range,
                    tags: input.tags,
                    context: *context,
                    columns: input.csv,
                },
            )
        } else if let Some(range) = input.report {
            Ok(Command::Report { range, tags: input.tags, context: *context })
        } else if let Some(range) = input.list_tags {
            Ok(Command::ListTags { range, tags: input.tags })
        } else if input.configuration {
            Ok(Command::ShowConfiguration)
        } else if input.resolution.is_some() || input.pay.is_some() || input.max_hours.is_some() {
            Ok(
                Command::SetConfiguration {
                    resolution: input.resolution,
                    pay: input.pay,
                    tags: input.tags,
                    max_hours: input.max_hours,
                },
            )
        } else if let Some(filename) = input.legacy_import {
            Ok(Command::LegacyImport { filename })
        } else if input.message.is_some() || input.tags.is_some() {
            let flattened = match input.message {
                Some(m) => m,
                None => None,
            };
            Ok(Command::MessageTags { message: flattened, tags: input.tags })
        } else {
            Err(Error::UnknownCommand)
        }
    }

    /// Set or overwrite the command's message.  Only the five variants that
    /// carry a message field accept one; on any other variant this is an
    /// error and the command is unchanged.
    pub fn set_message(&mut self, new_message: String) -> (r: Result<(), Error>)
        ensures
            match *old(self) {
                Command::Start { start, message, tags } => r is Ok && *final(self)
                    == (Command::Start { start, message: Some(Some(new_message)), tags }),
                Command::Add { start, end, message, tags } => r is Ok && *final(self) == (
                Command::Add { start, end, message: Some(Some(new_message)), tags }),
                Command::Back { start, message, tags } => r is Ok && *final(self)
                    == (Command::Back { start, message: Some(Some(new_message)), tags }),
                Command::BackAdd { start, end, message, tags } => r is Ok && *final(self) == (
                Command::BackAdd { start, end, message: Some(Some(new_message)), tags }),
                Command::End { end, message, tags } => r is Ok && *final(self) == (Command::End {
                    end,
                    message: Some(Some(new_message)),
                    tags,
                }),
                _ => r == Err::<(), Error>(Error::NoMessage) && *final(self) == *old(self),
            },
    {
        let mut taken = Command::ShowConfiguration;
        core::mem::swap(self, &mut taken);
        match taken {
            Command::Start { start, message: _, tags } => {
                *self = Command::Start { start, message: Some(Some(new_message)), tags };
                Ok(())
            },
            Command::Add { start, end, message: _, tags } => {
                *self = Command::Add { start, end, message: Some(Some(new_message)), tags };
                Ok(())
            },
            Command::Back { start, message: _, tags } => {
                *self = Command::Back { start, message: Some(Some(new_message)), tags };
                Ok(())
            },
            Command::BackAdd { start, end, message: _, tags } => {
                *self = Command::BackAdd { start, end, message: Some(Some(new_message)), tags };
                Ok(())
            },
            Command::End { end, message: _, tags } => {
                *self = Command::End { end, message: Some(Some(new_message)), tags };
                Ok(())
            },
            other => {
                *self = other;
                Err(Error::NoMessage)
            },
        }
    }
}

/// The tail of the resolution order, after every time-carrying and
/// range-carrying branch has declined: show-configuration, then
/// set-configuration, then legacy import, then a message or tag amendment,
/// else an invalid invocation.
pub open spec fn spec_parse_rest(input: Input, r: Result<Command, Error>) -> bool {
    if input.configuration {
        r == Ok::<Command, Error>(Command::ShowConfiguration)
    } else if input.resolution is Some || input.pay is Some || input.max_hours is Some {
        r == Ok::<Command, Error>(
            Command::SetConfiguration {
                resolution: input.resolution,
                pay: input.pay,
                tags: input.tags,
                max_hours: input.max_hours,
            },
        )
    } else if input.legacy_import is Some {
        r == Ok::<Command, Error>(
            Command::LegacyImport { filename: input.legacy_import.unwrap() },
        )
    } else if input.message is Some || input.tags is Some {
        r == Ok::<Command, Error>(
            Command::MessageTags {
                message: match input.message {
                    Some(m) => m,
                    None => None,
                },
                tags: input.tags,
            },
        )
    } else {
        r == Err::<Command, Error>(Error::UnknownCommand)
    }
}

/// Resolve a start spec together with an end spec or duration, executable
/// form: the instants of `spec_resolve_span`.
fn resolve_span(
    sp: &PartialDateTime,
    end: &Option<PartialDateTime>,
    duration: &Option<Duration>,
    now: &DateTime,
) -> (r: (DateTime, Option<DateTime>))
    requires
        sp.well_formed(),
        now.well_formed(),
        match end {
            Some(ep) => ep.well_formed(),
            None => true,
        },
        match duration {
            Some(d) => d.well_formed(),
            None => true,
        },
    ensures
        ({
            let span = spec_resolve_span(*sp, *end, *duration, *now);
            &&& r.0.well_formed()
            &&& r.0.minutes == span.0
            &&& match (r.1, span.1) {
                (Some(a), Some(b)) => a.minutes == b && a.well_formed(),
                (None, None) => true,
                _ => false,
            }
        }),
{
    let start = sp.resolve(now);
    match end {
        Some(ep) => {
            if ep.is_current() {
                let e = ep.resolve(now);
                if e.before(&start) {
                    let rolled = start.minus_minutes(if start.minutes < 1440 {
                        start.minutes
                    } else {
                        1440
                    });
                    (rolled, Some(e))
                } else {
                    (start, Some(e))
                }
            } else {
                let e0 = ep.resolve(&start);
                if e0.before(&start) {
                    let rolled = if e0.minutes + 1440 < MAX_MINUTES {
                        e0.plus_minutes(1440)
                    } else {
                        DateTime { minutes: MAX_MINUTES - 1 }
                    };
                    (start, Some(rolled))
                } else {
                    (start, Some(e0))
                }
            }
        },
        None => match duration {
            Some(d) => (start, Some(start.plus_duration(d))),
            None => (start, None),
        },
    }
}

} // verus!

verus! {

/// For a forward start and an end both given as bare clock times (no date on
/// either) with the end's time of day before the start's, inference rolls
/// the end forward one day: the inferred span ends strictly after it starts,
/// by exactly the clock distance plus one day.  (The start's day must not be
/// the last day the minute count can hold, or the rolled end would be pushed
/// back into range.)
pub proof fn lemma_end_rolls_forward(sh: u64, sm: u64, eh: u64, em: u64, now: DateTime)
    requires
        sh < 24,
        sm < 60,
        eh < 24,
        em < 60,
        eh * 60 + em < sh * 60 + sm,
        now.well_formed(),
        now.spec_day_index() < 3_659_999,
    ensures
        ({
            let span = spec_resolve_span(
                PartialDateTime::Hm { hour: sh, minute: sm },
                Some(PartialDateTime::Hm { hour: eh, minute: em }),
                None,
                now,
            );
            &&& span.1 is Some
            &&& span.0 < span.1.unwrap()
            &&& span.1.unwrap() - span.0 == (eh * 60 + em) + 1440 - (sh * 60 + sm)
        }),
{
    let rd = now.spec_day_index();
    let s0 = rd * 1440 + sh * 60 + sm;
    let ep = PartialDateTime::Hm { hour: eh, minute: em };
    assert((s0 as u64) as int == s0);
    assert(DateTime { minutes: s0 as u64 }.spec_day_index() == rd) by {
        assert(s0 / 1440 == rd) by (nonlinear_arith)
            requires
                s0 == rd * 1440 + sh * 60 + sm,
                0 <= rd,
                sh < 24,
                sm < 60,
        ;
    }
    let e0 = ep.spec_resolved(DateTime { minutes: s0 as u64 });
    assert(e0 == rd * 1440 + eh * 60 + em);
    assert(e0 + 1440 < MAX_MINUTES);
}

/// An end spec that names its full date and clock time stands for that
/// absolute instant no matter which instant it is resolved against: an `End`
/// command inferred while a job is open (whose reference is the open job's
/// start, per `Command::parse`) carries the same instant as it would against
/// any current time.
pub proof fn lemma_absolute_end_ignores_reference(
    ep: PartialDateTime,
    a: DateTime,
    b: DateTime,
)
    requires
        ep is YmdHm,
    ensures
        ep.spec_resolved(a) == ep.spec_resolved(b),
{
}

} // verus!
