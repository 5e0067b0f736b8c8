//! Command inference: the resolution order and the day-rollover rules.

use jobber::command::Command;
use jobber::command::Context;
use jobber::command::Input;
use jobber::command::Range;
use jobber::date_time::DateTime;
use jobber::duration::Duration;
use jobber::error::Error;
use jobber::partial_date_time::PartialDateTime;

fn empty_input() -> Input {
    Input {
        start: None,
        back: None,
        end: None,
        duration: None,
        message: None,
        tags: None,
        list: None,
        report: None,
        export: None,
        csv: String::new(),
        resolution: None,
        pay: None,
        max_hours: None,
        configuration: false,
        legacy_import: None,
        list_tags: None,
    }
}

fn ctx(y: u64, mo: u64, d: u64, h: u64, mi: u64) -> Context {
    Context { current: DateTime::from_ymd_hm(y, mo, d, h, mi) }
}

#[test]
fn test_start() {
    let context = ctx(2023, 1, 1, 12, 0);

    let mut input = empty_input();
    input.start = Some(PartialDateTime::Current);
    assert_eq!(
        Command::parse(input, None, &context),
        Ok(Command::Start {
            start: DateTime::from_ymd_hm(2023, 1, 1, 12, 0),
            message: None,
            tags: None
        })
    );

    let mut input = empty_input();
    input.start = Some(PartialDateTime::MdHm { month: 1, day: 1, hour: 12, minute: 0 });
    assert_eq!(
        Command::parse(input, None, &context),
        Ok(Command::Start {
            start: DateTime::from_ymd_hm(2023, 1, 1, 12, 0),
            message: None,
            tags: None
        })
    );
}

#[test]
fn test_add() {
    let context = ctx(2023, 1, 1, 12, 0);
    let mut input = empty_input();
    input.start = Some(PartialDateTime::Hm { hour: 12, minute: 0 });
    input.end = Some(PartialDateTime::Hm { hour: 13, minute: 0 });
    assert_eq!(
        Command::parse(input, None, &context),
        Ok(Command::Add {
            start: DateTime::from_ymd_hm(2023, 1, 1, 12, 0),
            end: DateTime::from_ymd_hm(2023, 1, 1, 13, 0),
            message: None,
            tags: None
        })
    );
}

#[test]
fn end_before_start_rolls_end_forward() {
    // Start at noon, end "06:00" with no date given: the end rolls forward
    // one day, so the span is strictly positive.
    let context = ctx(2023, 1, 1, 12, 0);
    let mut input = empty_input();
    input.start = Some(PartialDateTime::Hm { hour: 12, minute: 0 });
    input.end = Some(PartialDateTime::Hm { hour: 6, minute: 0 });
    assert_eq!(
        Command::parse(input, None, &context),
        Ok(Command::Add {
            start: DateTime::from_ymd_hm(2023, 1, 1, 12, 0),
            end: DateTime::from_ymd_hm(2023, 1, 2, 6, 0),
            message: None,
            tags: None
        })
    );
}

#[test]
fn bare_end_marker_rolls_start_back() {
    // "-s 22:00 -e" at 06:00 the next morning: the end is now, and the
    // start rolls back one day.
    let context = ctx(2023, 1, 2, 6, 0);
    let mut input = empty_input();
    input.start = Some(PartialDateTime::Hm { hour: 22, minute: 0 });
    input.end = Some(PartialDateTime::Current);
    assert_eq!(
        Command::parse(input, None, &context),
        Ok(Command::Add {
            start: DateTime::from_ymd_hm(2023, 1, 1, 22, 0),
            end: DateTime::from_ymd_hm(2023, 1, 2, 6, 0),
            message: None,
            tags: None
        })
    );
}

#[test]
fn end_resolves_against_open_start() {
    // An open job started 2023-01-01 09:00; a bare clock-time end resolves
    // against that start's day, not against "now" months later.
    let context = ctx(2023, 5, 5, 17, 45);
    let open = DateTime::from_ymd_hm(2023, 1, 1, 9, 0);
    let mut input = empty_input();
    input.end = Some(PartialDateTime::Hm { hour: 10, minute: 30 });
    assert_eq!(
        Command::parse(input, Some(open), &context),
        Ok(Command::End {
            end: DateTime::from_ymd_hm(2023, 1, 1, 10, 30),
            message: None,
            tags: None
        })
    );

    // A fully specified end names its absolute instant whatever the context.
    let mut input = empty_input();
    input.end = Some(PartialDateTime::YmdHm { year: 2023, month: 1, day: 1, hour: 11, minute: 0 });
    assert_eq!(
        Command::parse(input, Some(open), &context),
        Ok(Command::End {
            end: DateTime::from_ymd_hm(2023, 1, 1, 11, 0),
            message: None,
            tags: None
        })
    );
}

#[test]
fn start_with_duration_adds() {
    let context = ctx(2023, 1, 1, 12, 0);
    let mut input = empty_input();
    input.start = Some(PartialDateTime::Current);
    input.duration = Some(Duration::Hm { hours: 2, minutes: 30 });
    assert_eq!(
        Command::parse(input, None, &context),
        Ok(Command::Add {
            start: DateTime::from_ymd_hm(2023, 1, 1, 12, 0),
            end: DateTime::from_ymd_hm(2023, 1, 1, 14, 30),
            message: None,
            tags: None
        })
    );
}

#[test]
fn back_reference_produces_back() {
    let context = ctx(2023, 1, 1, 12, 0);
    let mut input = empty_input();
    input.back = Some(PartialDateTime::Current);
    assert_eq!(
        Command::parse(input, None, &context),
        Ok(Command::Back {
            start: DateTime::from_ymd_hm(2023, 1, 1, 12, 0),
            message: None,
            tags: None
        })
    );
}

#[test]
fn request_flags_in_priority_order() {
    let context = ctx(2023, 1, 1, 12, 0);
    let everything = Range { from: None, to: None };

    let mut input = empty_input();
    input.list = Some(everything);
    input.report = Some(everything);
    assert_eq!(
        Command::parse(input, None, &context),
        Ok(Command::List { range: everything, tags: None })
    );

    let mut input = empty_input();
    input.configuration = true;
    assert_eq!(Command::parse(input, None, &context), Ok(Command::ShowConfiguration));

    let mut input = empty_input();
    input.resolution = Some(15);
    assert_eq!(
        Command::parse(input, None, &context),
        Ok(Command::SetConfiguration {
            resolution: Some(15),
            pay: None,
            tags: None,
            max_hours: None
        })
    );

    let mut input = empty_input();
    input.message = Some(Some("notes".to_string()));
    assert_eq!(
        Command::parse(input, None, &context),
        Ok(Command::MessageTags { message: Some("notes".to_string()), tags: None })
    );
}

#[test]
fn empty_invocation_is_unknown_command() {
    let context = ctx(2023, 1, 1, 12, 0);
    assert_eq!(Command::parse(empty_input(), None, &context), Err(Error::UnknownCommand));
}

#[test]
fn set_message_only_on_variants_with_message() {
    let mut cmd = Command::Start {
        start: DateTime::from_ymd_hm(2023, 1, 1, 12, 0),
        message: None,
        tags: None,
    };
    assert_eq!(cmd.set_message("worked".to_string()), Ok(()));
    assert_eq!(
        cmd,
        Command::Start {
            start: DateTime::from_ymd_hm(2023, 1, 1, 12, 0),
            message: Some(Some("worked".to_string())),
            tags: None
        }
    );

    let mut cmd = Command::ShowConfiguration;
    assert_eq!(cmd.set_message("worked".to_string()), Err(Error::NoMessage));
    assert_eq!(cmd, Command::ShowConfiguration);
}

#[test]
fn list_tags_outranks_configuration_requests() {
    let context = ctx(2023, 1, 1, 12, 0);
    let everything = Range { from: None, to: None };
    let mut input = empty_input();
    input.list_tags = Some(everything);
    input.configuration = true;
    assert_eq!(
        Command::parse(input, None, &context),
        Ok(Command::ListTags { range: everything, tags: None })
    );
}
