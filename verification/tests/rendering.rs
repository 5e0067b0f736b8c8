//! Calendar reporting, list rendering, change descriptions and the calendar
//! primitives they rest on.

use jobber::change::Change;
use jobber::command::Context;
use jobber::configuration::Configuration;
use jobber::configuration::Properties;
use jobber::date_time::DateTime;
use jobber::date_time::days_in_month;
use jobber::job::Job;
use jobber::job_list::JobList;
use jobber::reports::collect_fragments;
use jobber::reports::day_cost;
use jobber::reports::day_exceeded;
use jobber::reports::day_minutes;
use jobber::reports::day_present;
use jobber::reports::report;
use jobber::format::hours_bar;
use jobber::tag_set::TagSet;

fn dt(y: u64, mo: u64, d: u64, h: u64, mi: u64) -> DateTime {
    DateTime::from_ymd_hm(y, mo, d, h, mi)
}

fn job(start: DateTime, end: DateTime, tags: &[&str]) -> Job {
    Job {
        start,
        end: Some(end),
        message: None,
        tags: TagSet(tags.iter().map(|t| t.to_string()).collect()),
    }
}

fn base_properties() -> Properties {
    Properties { resolution: 1, rate: None, max_hours: None }
}

#[test]
fn days_in_month_follows_the_leap_rule() {
    assert_eq!(days_in_month(2024, 2), 29);
    assert_eq!(days_in_month(2023, 2), 28);
    assert_eq!(days_in_month(2000, 2), 29);
    assert_eq!(days_in_month(1900, 2), 28);
    assert_eq!(days_in_month(2023, 7), 31);
    assert_eq!(days_in_month(2023, 4), 30);
}

#[test]
fn calendar_conversions_roundtrip() {
    let d = dt(2023, 1, 1, 0, 0);
    assert_eq!(d.ymd(), (2023, 1, 1));
    // The first day of 2023 was a Sunday.
    assert_eq!(d.weekday_sun0(), 0);
    let d = dt(2024, 2, 29, 23, 59);
    assert_eq!(d.ymd(), (2024, 2, 29));
    assert_eq!(d.hour(), 23);
    assert_eq!(d.minute(), 59);
}

#[test]
fn now_is_well_formed_and_does_not_go_backwards() {
    let a = DateTime::now();
    let b = DateTime::now();
    assert!(b.minutes >= a.minutes);
}

#[test]
fn fragments_carry_resolved_tags_and_day_totals() {
    let now = dt(2023, 7, 2, 0, 0);
    let mut config = Configuration::new(base_properties());
    config.insert_override(
        "work",
        Properties { resolution: 1, rate: Some(1000), max_hours: Some(1) },
    );
    let mut list = JobList { jobs: Vec::new(), configuration: config };
    list.push(0, job(dt(2023, 6, 30, 23, 0), dt(2023, 7, 1, 1, 0), &["work"]));

    let frags = collect_fragments(&list, &now);
    assert_eq!(frags.len(), 2);

    let june30 = dt(2023, 6, 30, 0, 0).day_index();
    let july1 = dt(2023, 7, 1, 0, 0).day_index();
    assert!(day_present(&frags, june30));
    assert!(day_present(&frags, july1));
    assert!(!day_present(&frags, july1 + 1));
    assert_eq!(day_minutes(&frags, june30), 60);
    assert_eq!(day_minutes(&frags, july1), 60);
    // One hour at 1000 cents per hour on each day.
    assert_eq!(day_cost(&frags, june30), Some(60_000));
    // The one-hour limit is met, not exceeded.
    assert!(!day_exceeded(&frags, june30));
}

#[test]
fn day_exceedance_flags_a_tag_over_its_limit() {
    let now = dt(2023, 7, 2, 0, 0);
    let mut config = Configuration::new(base_properties());
    config.insert_override(
        "work",
        Properties { resolution: 1, rate: None, max_hours: Some(1) },
    );
    let mut list = JobList { jobs: Vec::new(), configuration: config };
    list.push(0, job(dt(2023, 7, 1, 9, 0), dt(2023, 7, 1, 10, 30), &["work"]));
    let frags = collect_fragments(&list, &now);
    let july1 = dt(2023, 7, 1, 0, 0).day_index();
    assert!(day_exceeded(&frags, july1));
}

#[test]
fn report_shows_every_day_and_ends_with_totals() {
    let now = dt(2023, 8, 1, 0, 0);
    let context = Context { current: now };
    let config = Configuration::new(base_properties());
    let mut list = JobList { jobs: Vec::new(), configuration: config };
    // Half an hour on the last day of a 31-day month: the last calendar day
    // must appear in the grid.
    list.push(0, job(dt(2023, 7, 31, 9, 0), dt(2023, 7, 31, 9, 30), &[]));
    let text = report(&list, &context);
    assert!(text.contains("7/2023"));
    assert!(text.contains("0.5"));
    assert!(text.contains("Jul 2023: 0.5 hours"));
    assert!(text.ends_with("Total: 1 job(s), 0.5 hours\n"));
}

#[test]
fn report_totals_carry_separated_pay() {
    let now = dt(2023, 8, 1, 0, 0);
    let context = Context { current: now };
    let mut config = Configuration::new(base_properties());
    // One thousand dollars per hour, in cents.
    config.insert_override(
        "gold",
        Properties { resolution: 1, rate: Some(100_000), max_hours: None },
    );
    let mut list = JobList { jobs: Vec::new(), configuration: config };
    list.push(0, job(dt(2023, 7, 3, 9, 0), dt(2023, 7, 3, 10, 0), &["gold"]));
    let text = report(&list, &context);
    assert!(text.ends_with("Total: 1 job(s), 1 hours = $1,000.00\n"));
}

#[test]
fn list_rendering_shows_positions_and_totals() {
    let now = dt(2023, 8, 1, 0, 0);
    let config = Configuration::new(base_properties());
    let mut list = JobList { jobs: Vec::new(), configuration: config };
    list.push(4, job(dt(2023, 7, 3, 9, 0), dt(2023, 7, 3, 10, 0), &["work"]));
    let text = list.render(&now);
    assert!(text.contains("Pos: 5"));
    assert!(text.contains("2023-07-03 09:00"));
    assert!(text.contains("work"));
    assert!(text.ends_with("Total: 1 job(s), 1 hours\n"));
}

#[test]
fn change_descriptions_name_what_happened() {
    assert_eq!(Change::Nothing.describe(), "Database unchanged.");

    let open = Job {
        start: dt(2023, 7, 3, 9, 0),
        end: None,
        message: Some("meeting".to_string()),
        tags: TagSet(vec!["work".to_string()]),
    };
    let text = Change::Push(open).describe();
    assert!(text.starts_with("Started new job:"));
    assert!(text.contains("2023-07-03 09:00"));
    assert!(text.contains("meeting"));

    let closed = job(dt(2023, 7, 3, 9, 0), dt(2023, 7, 3, 10, 0), &["work"]);
    let text = Change::Push(closed).describe();
    assert!(text.starts_with("Added new job:"));

    let ended = job(dt(2023, 7, 3, 9, 0), dt(2023, 7, 3, 10, 0), &["work"]);
    let text = Change::Modify(2, ended).describe();
    assert!(text.starts_with("Modified job:"));
    assert!(text.contains("Pos: 3"));

    let text = Change::Import(7, TagSet(vec!["new".to_string()])).describe();
    assert!(text.starts_with("Imported 7 jobs"));
    assert!(text.contains("new"));
}

#[test]
fn hours_bar_marks_whole_hours_and_fractions() {
    assert_eq!(hours_bar(150), " ++-");
    assert_eq!(hours_bar(155), " +++");
    assert_eq!(hours_bar(120), " ++");
    assert_eq!(hours_bar(0), "");
    assert_eq!(hours_bar(1500), "");
}

#[test]
fn messages_indent_their_continuation_lines() {
    assert_eq!(jobber::format::message("first\nsecond", 3), "first\n   second");
    assert_eq!(jobber::format::message("plain", 5), "plain");
    // Text beyond ASCII is kept exactly.
    assert_eq!(jobber::format::message("caf\u{e9}\nnoch \u{fc}brig", 2), "caf\u{e9}\n  noch \u{fc}brig");
}

#[test]
fn non_ascii_tags_and_messages_survive_rendering() {
    let open = Job {
        start: dt(2023, 7, 3, 9, 0),
        end: None,
        message: Some("b\u{fc}ro".to_string()),
        tags: TagSet(vec!["caf\u{e9}".to_string()]),
    };
    let text = Change::Push(open).describe();
    assert!(text.contains("b\u{fc}ro"));
    assert!(text.contains("caf\u{e9}"));
}

#[test]
fn report_renders_a_dash_for_days_without_work() {
    let now = dt(2023, 8, 1, 0, 0);
    let context = Context { current: now };
    let config = Configuration::new(base_properties());
    let mut list = JobList { jobs: Vec::new(), configuration: config };
    list.push(0, job(dt(2023, 7, 3, 9, 0), dt(2023, 7, 3, 10, 0), &[]));
    let text = report(&list, &context);
    // July third worked one hour; every other day shows the placeholder
    // (weekly subtotals still print their zero).
    assert!(text.contains("       1"));
    assert!(text.contains("       -"));
}
