//! What one executed command changed, for the user-facing confirmation.

use vstd::prelude::*;

use crate::configuration::Configuration;
use crate::configuration::Properties;
use crate::date_time::DateTime;
use crate::format::ascii_chars_of;
use crate::format::date_time_bytes;
use crate::format::dec_bytes;
use crate::format::indented_chars;
use crate::job::Job;
use crate::tag_set::TagSet;
use crate::tag_set::labels_of;

verus! {

/// The net effect of one executed command on the ledger, reported back for
/// confirmation (never replayed).
pub enum Change {
    /// Nothing changed.
    Nothing,
    /// A new job was pushed.
    Push(Job),
    /// The job at the position was modified.
    Modify(usize, Job),
    /// So many entries were imported, bringing these new tags.
    Import(usize, TagSet),
    /// The configuration changed, for the given tags or as the default.
    Configuration(Option<Vec<String>>, Configuration),
}

/// Tag labels joined by a comma and a space.
pub open spec fn tags_text(ts: Seq<Seq<char>>) -> Seq<char>
    decreases ts.len(),
{
    if ts.len() == 0 {
        Seq::empty()
    } else if ts.len() == 1 {
        ts[0]
    } else {
        tags_text(ts.drop_last()) + ", "@ + ts.last()
    }
}

/// A job's body: its start, its end (or that it is open), its message with
/// continuation lines indented under the label, and its tags.
pub open spec fn job_text(j: Job) -> Seq<char> {
    "    Start: "@ + ascii_chars_of(date_time_bytes(j.start)) + "\n"@ + (match j.end {
        Some(e) => "    End:   "@ + ascii_chars_of(date_time_bytes(e)) + "\n"@,
        None => "    End:   open\n"@,
    }) + (match j.message {
        Some(m) => "    Message: "@ + indented_chars(m@, 13) + "\n"@,
        None => Seq::<char>::empty(),
    }) + (if j.tags@.len() == 0 {
        Seq::<char>::empty()
    } else {
        "    Tags: "@ + tags_text(j.tags@) + "\n"@
    })
}

/// A properties record's values, one labelled line each.
pub open spec fn properties_text(p: Properties) -> Seq<char> {
    "    Resolution (minutes): "@ + ascii_chars_of(dec_bytes(p.resolution as int)) + "\n"@ + (
    match p.rate {
        Some(rate) => "    Rate (cents per hour): "@ + ascii_chars_of(dec_bytes(rate as int))
            + "\n"@,
        None => Seq::<char>::empty(),
    }) + (match p.max_hours {
        Some(mh) => "    Maximum hours per day: "@ + ascii_chars_of(dec_bytes(mh as int)) + "\n"@,
        None => Seq::<char>::empty(),
    })
}

/// A position as shown to the user: one-based, held within machine range.
pub open spec fn shown_position(pos: int) -> int {
    if pos < usize::MAX {
        pos + 1
    } else {
        pos
    }
}

/// A change's confirmation text, variant by variant.
pub open spec fn change_text(c: Change) -> Seq<char> {
    match c {
        Change::Nothing => "Database unchanged."@,
        Change::Push(job) => (if job.spec_is_open() {
            "Started new job:\n\n"@
        } else {
            "Added new job:\n\n"@
        }) + job_text(job),
        Change::Modify(pos, job) => (if job.spec_is_open() {
            "Ended open job:\n\n    Pos: "@
        } else {
            "Modified job:\n\n    Pos: "@
        }) + ascii_chars_of(dec_bytes(shown_position(pos as int))) + "\n"@ + job_text(job),
        Change::Import(count, new_tags) => "Imported "@ + ascii_chars_of(dec_bytes(count as int))
            + (if new_tags@.len() == 0 {
            " jobs."@
        } else {
            " jobs added new tags "@ + tags_text(new_tags@) + "."@
        }),
        Change::Configuration(tags, config) => (match tags {
            Some(ts) => "Changed the following configuration values for tag(s) "@ + tags_text(
                labels_of(ts@),
            ) + ":\n\n"@,
            None => "Changed the following default configuration values:\n\n"@,
        }) + properties_text(config.base),
    }
}

impl Change {
    /// The change's confirmation text: exactly `change_text` of this value.
    pub fn describe(&self) -> (r: String)
        requires
            match self {
                Change::Push(job) => job.well_formed(),
                Change::Modify(_, job) => job.well_formed(),
                _ => true,
            },
        ensures
            r@ == change_text(*self),
    {
        let mut out = String::new();
        match self {
            Change::Nothing => {
                out.append("Database unchanged.");
            },
            Change::Push(job) => {
                if job.is_open() {
                    out.append("Started new job:\n\n");
                } else {
                    out.append("Added new job:\n\n");
                }
                append_job_text(&mut out, job);
            },
            Change::Modify(position, job) => {
                if job.is_open() {
                    out.append("Ended open job:\n\n    Pos: ");
                } else {
                    out.append("Modified job:\n\n    Pos: ");
                }
                let pos1 = if *position < usize::MAX {
                    *position + 1
                } else {
                    *position
                };
                crate::format::append_dec(&mut out, pos1 as u64);
                out.append("\n");
                append_job_text(&mut out, job);
            },
            Change::Import(count, new_tags) => {
                out.append("Imported ");
                crate::format::append_dec(&mut out, *count as u64);
                if new_tags.is_empty() {
                    out.append(" jobs.");
                } else {
                    out.append(" jobs added new tags ");
                    append_tags_text(&mut out, new_tags);
                    out.append(".");
                }
            },
            Change::Configuration(tags, config) => {
                match tags {
                    Some(ts) => {
                        out.append("Changed the following configuration values for tag(s) ");
                        append_labels_text(&mut out, ts);
                        out.append(":\n\n");
                    },
                    None => {
                        out.append("Changed the following default configuration values:\n\n");
                    },
                }
                append_properties_text(&mut out, &config.base);
            },
        }
        out
    }
}

/// Append a job's body text.
pub fn append_job_text(out: &mut String, job: &Job)
    requires
        job.well_formed(),
    ensures
        final(out)@ == old(out)@ + job_text(*job),
{
    append_interval_text(out, job);
    append_message_text(out, job);
    append_job_tags_text(out, job);
    proof {
        assert(final(out)@ =~= old(out)@ + job_text(*job));
    }
}

/// Append a job's start and end lines.
fn append_interval_text(out: &mut String, job: &Job)
    requires
        job.well_formed(),
    ensures
        final(out)@ == old(out)@ + "    Start: "@ + ascii_chars_of(date_time_bytes(job.start))
            + "\n"@ + (match job.end {
            Some(e) => "    End:   "@ + ascii_chars_of(date_time_bytes(e)) + "\n"@,
            None => "    End:   open\n"@,
        }),
{
    out.append("    Start: ");
    crate::format::append_date_time(out, &job.start);
    out.append("\n");
    match &job.end {
        Some(e) => {
            out.append("    End:   ");
            crate::format::append_date_time(out, e);
            out.append("\n");
        },
        None => {
            out.append("    End:   open\n");
        },
    }
}

/// Append a job's message line, if it carries one.
fn append_message_text(out: &mut String, job: &Job)
    ensures
        final(out)@ == old(out)@ + (match job.message {
            Some(m) => "    Message: "@ + indented_chars(m@, 13) + "\n"@,
            None => Seq::<char>::empty(),
        }),
{
    match &job.message {
        Some(m) => {
            out.append("    Message: ");
            crate::format::append_message(out, m.as_str(), 13);
            out.append("\n");
        },
        None => {
            proof {
                assert(final(out)@ =~= old(out)@ + Seq::<char>::empty());
            }
        },
    }
}

/// Append a job's tags line, if it has tags.
fn append_job_tags_text(out: &mut String, job: &Job)
    ensures
        final(out)@ == old(out)@ + (if job.tags@.len() == 0 {
            Seq::<char>::empty()
        } else {
            "    Tags: "@ + tags_text(job.tags@) + "\n"@
        }),
{
    if !job.tags.is_empty() {
        out.append("    Tags: ");
        append_tags_text(out, &job.tags);
        out.append("\n");
    } else {
        proof {
            assert(final(out)@ =~= old(out)@ + Seq::<char>::empty());
        }
    }
}

/// Append a tag set's labels, comma-separated.
fn append_tags_text(out: &mut String, tags: &TagSet)
    ensures
        final(out)@ == old(out)@ + tags_text(tags@),
{
    append_labels_text(out, &tags.0)
}

/// Append a label list, comma-separated.
fn append_labels_text(out: &mut String, labels: &Vec<String>)
    ensures
        final(out)@ == old(out)@ + tags_text(labels_of(labels@)),
{
    let ghost all = labels_of(labels@);
    let mut i: usize = 0;
    while i < labels.len()
        invariant
            i <= all.len(),
            all == labels_of(labels@),
            out@ == old(out)@ + tags_text(all.take(i as int)),
        decreases all.len() - i,
    {
        proof {
            assert(all.take(i + 1 as int).drop_last() =~= all.take(i as int));
            assert(all.take(i + 1 as int).last() == all[i as int]);
        }
        if i > 0 {
            out.append(", ");
        }
        out.append(labels[i].as_str());
        i = i + 1;
    }
    proof {
        assert(all.take(all.len() as int) =~= all);
        if all.len() == 0 {
            assert(out@ =~= old(out)@ + tags_text(all));
        }
    }
}

/// Append a properties record's values.
fn append_properties_text(out: &mut String, properties: &Properties)
    ensures
        final(out)@ == old(out)@ + properties_text(*properties),
{
    out.append("    Resolution (minutes): ");
    crate::format::append_dec(out, properties.resolution as u64);
    out.append("\n");
    match properties.rate {
        Some(rate) => {
            out.append("    Rate (cents per hour): ");
            crate::format::append_dec(out, rate);
            out.append("\n");
        },
        None => {},
    }
    match properties.max_hours {
        Some(mh) => {
            out.append("    Maximum hours per day: ");
            crate::format::append_dec(out, mh as u64);
            out.append("\n");
        },
        None => {},
    }
}

} // verus!
