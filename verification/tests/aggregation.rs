//! Tag resolution, job-list aggregation, splitting and tag-set
//! modification.

use jobber::configuration::Configuration;
use jobber::configuration::Properties;
use jobber::date_time::DateTime;
use jobber::job::Job;
use jobber::job_list::JobList;
use jobber::duration::Duration;
use jobber::error::Error;
use jobber::job_list::Jobs;
use jobber::tag_set::TagSet;

fn dt(y: u64, mo: u64, d: u64, h: u64, mi: u64) -> DateTime {
    DateTime::from_ymd_hm(y, mo, d, h, mi)
}

fn base_properties() -> Properties {
    Properties { resolution: 1, rate: None, max_hours: None }
}

fn job(start: DateTime, end: DateTime, tags: &[&str]) -> Job {
    Job {
        start,
        end: Some(end),
        message: None,
        tags: TagSet(tags.iter().map(|t| t.to_string()).collect()),
    }
}

#[test]
fn resolution_is_first_match_not_merge() {
    let mut config = Configuration::new(base_properties());
    config.insert_override("a", Properties { resolution: 1, rate: Some(1000), max_hours: None });
    config.insert_override("b", Properties { resolution: 1, rate: Some(2000), max_hours: None });

    let tags = TagSet(vec!["b".to_string(), "a".to_string()]);
    let (winner, props) = config.get_and_why(&tags);
    assert_eq!(winner, "b".to_string());
    assert_eq!(props.rate, Some(2000));

    // No tag with an override: the base record under the empty label.
    let tags = TagSet(vec!["c".to_string()]);
    let (winner, props) = config.get_and_why(&tags);
    assert_eq!(winner, String::new());
    assert_eq!(props.rate, None);
}

#[test]
fn pay_overall_absent_until_a_rated_tag_appears() {
    let now = dt(2023, 1, 2, 0, 0);
    let mut config = Configuration::new(base_properties());
    config.insert_override("paid", Properties { resolution: 1, rate: Some(1000), max_hours: None });

    let mut list = JobList { jobs: Vec::new(), configuration: config };
    list.push(0, job(dt(2023, 1, 1, 9, 0), dt(2023, 1, 1, 10, 0), &["unpaid"]));
    assert_eq!(list.pay_overall(&now), None);
    assert_eq!(list.hours_overall(&now), 60);

    list.push(1, job(dt(2023, 1, 1, 10, 0), dt(2023, 1, 1, 11, 0), &["paid"]));
    // One hour at 1000 cents per hour: 1000 * 60 cent-minutes.
    assert_eq!(list.pay_overall(&now), Some(60_000));
    assert_eq!(list.hours_overall(&now), 120);
}

#[test]
fn midnight_spanning_job_splits_into_two_exact_fragments() {
    let now = dt(2023, 7, 2, 0, 0);
    let j = job(dt(2023, 6, 30, 23, 0), dt(2023, 7, 1, 1, 0), &["work"]);
    let parts = j.split(&now);
    assert_eq!(parts.len(), 2);

    let first = &parts[0];
    let second = &parts[1];
    assert_eq!(first.start, dt(2023, 6, 30, 23, 0));
    assert_eq!(first.end, Some(dt(2023, 7, 1, 0, 0)));
    assert_eq!(second.start, dt(2023, 7, 1, 0, 0));
    assert_eq!(second.end, Some(dt(2023, 7, 1, 1, 0)));

    // One hour each; the durations sum exactly to the original's.
    let props = base_properties();
    assert_eq!(first.hours(&props, &now), 60);
    assert_eq!(second.hours(&props, &now), 60);
    assert_eq!(j.hours(&props, &now), 120);

    // Attributed to June 30 and July 1 respectively.
    assert_eq!(first.start.ymd(), (2023, 6, 30));
    assert_eq!(second.start.ymd(), (2023, 7, 1));
}

#[test]
fn limit_keeps_the_last_entries_and_never_errs() {
    let now = dt(2023, 1, 2, 0, 0);
    let config = Configuration::new(base_properties());
    let mut list = JobList { jobs: Vec::new(), configuration: config };
    for i in 0..5u64 {
        list.push(
            i as usize,
            job(dt(2023, 1, 1, 9 + i, 0), dt(2023, 1, 1, 10 + i, 0), &["t"]),
        );
    }
    assert_eq!(list.limit(3), 3);
    assert_eq!(list.positions(), vec![2, 3, 4]);

    // Limiting to more entries than present keeps all of them.
    assert_eq!(list.limit(10), 3);
    assert_eq!(list.positions(), vec![2, 3, 4]);
    let _ = now;
}

#[test]
fn drain_reports_requested_versus_available() {
    let config = Configuration::new(base_properties());
    let mut list = JobList { jobs: Vec::new(), configuration: config };
    for i in 0..5u64 {
        list.push(
            i as usize,
            job(dt(2023, 1, 1, 9, 0), dt(2023, 1, 1, 10, 0), &["t"]),
        );
    }
    assert_eq!(list.drain(7), Err(Error::ToFewJobs(7, 5)));
    assert_eq!(list.len(), 5);
    assert_eq!(list.drain(2), Ok(()));
    assert_eq!(list.positions(), vec![3, 4]);
}

#[test]
fn tag_modification_adds_removes_or_replaces() {
    let base = TagSet(vec!["work".to_string()]);

    let add = TagSet(vec!["+urgent".to_string()]);
    assert_eq!(base.modify(&add).0, vec!["work".to_string(), "urgent".to_string()]);

    let remove = TagSet(vec!["-work".to_string()]);
    assert_eq!(base.modify(&remove).0, Vec::<String>::new());

    let replace = TagSet(vec!["personal".to_string()]);
    assert_eq!(base.modify(&replace).0, vec!["personal".to_string()]);

    // Trailing markers work as well, and the marker is not tag content.
    let add_trailing = TagSet(vec!["urgent+".to_string()]);
    assert_eq!(base.modify(&add_trailing).0, vec!["work".to_string(), "urgent".to_string()]);
}

#[test]
fn tag_set_keeps_insertion_order_without_duplicates() {
    let mut tags = TagSet::new();
    assert!(tags.insert("b"));
    assert!(tags.insert("a"));
    assert!(!tags.insert("b"));
    assert_eq!(tags.0, vec!["b".to_string(), "a".to_string()]);
    assert!(tags.contains(&"a".to_string()));
    tags.remove("b");
    assert_eq!(tags.0, vec!["a".to_string()]);
    assert_eq!(tags.len(), 1);
    assert!(!tags.is_empty());
}

#[test]
fn hours_round_to_the_resolution() {
    let now = dt(2023, 1, 2, 0, 0);
    let quarter = Properties { resolution: 15, rate: None, max_hours: None };
    // Fifty minutes round down to forty-five, fifty-three round up to sixty.
    let j = job(dt(2023, 1, 1, 9, 0), dt(2023, 1, 1, 9, 50), &[]);
    assert_eq!(j.hours(&quarter, &now), 45);
    let j = job(dt(2023, 1, 1, 9, 0), dt(2023, 1, 1, 9, 53), &[]);
    assert_eq!(j.hours(&quarter, &now), 60);
}

#[test]
fn open_job_measures_up_to_now() {
    let now = dt(2023, 1, 1, 10, 30);
    let j = Job {
        start: dt(2023, 1, 1, 9, 0),
        end: None,
        message: None,
        tags: TagSet(Vec::new()),
    };
    assert!(j.is_open());
    assert_eq!(j.minutes(&now), 90);
}

#[test]
fn job_list_tags_union_in_first_occurrence_order() {
    let config = Configuration::new(base_properties());
    let mut list = JobList { jobs: Vec::new(), configuration: config };
    list.push(0, job(dt(2023, 1, 1, 9, 0), dt(2023, 1, 1, 10, 0), &["b", "a"]));
    list.push(1, job(dt(2023, 1, 1, 10, 0), dt(2023, 1, 1, 11, 0), &["a", "c"]));
    assert_eq!(list.tags().0, vec!["b".to_string(), "a".to_string(), "c".to_string()]);
}

#[test]
fn ledger_tag_index_is_ordered_and_searchable() {
    let config = Configuration::new(base_properties());
    let ledger = Jobs {
        jobs: vec![
            job(dt(2023, 1, 1, 9, 0), dt(2023, 1, 1, 10, 0), &["b", "a"]),
            job(dt(2023, 1, 1, 10, 0), dt(2023, 1, 1, 11, 0), &["c", "a"]),
        ],
        configuration: config,
    };
    let index = ledger.tag_index();
    assert_eq!(index.0, vec!["b".to_string(), "a".to_string(), "c".to_string()]);
    assert_eq!(index.position(&"a".to_string()), Some(1));
    assert_eq!(index.position(&"d".to_string()), None);
}

#[test]
fn durations_split_into_hours_and_minutes_sign_preserving() {
    assert_eq!(Duration::from_minutes(150), Duration::Hm { hours: 2, minutes: 30 });
    assert_eq!(Duration::from_minutes(-150), Duration::Hm { hours: -2, minutes: -30 });
    assert_eq!(Duration::days(1), Duration::Hm { hours: 24, minutes: 0 });
    assert_eq!(Duration::Zero.minutes_total(), 0);
    let later = dt(2023, 1, 2, 6, 0);
    let earlier = dt(2023, 1, 1, 22, 0);
    assert_eq!(later.since(&earlier), Duration::Hm { hours: 8, minutes: 0 });
    assert_eq!(earlier.since(&later), Duration::Hm { hours: -8, minutes: 0 });
}
