use chrono::NaiveDate;
use chrono::Datelike;
use timetracker::collector::{collect_blocks, CollectResult, Summary};
use timetracker::configfile::TTConfig;
use timetracker::name_map::NameMap;
use timetracker::subcommands::report::{
    days_until, long_report_lines, report, report_dates, report_order, SummaryFormat,
};
use timetracker::subcommands::report_table::{daily_activities, DailyActivity};
use timetracker::time::{Duration, Time};

fn collected(log: Vec<&str>, end: Option<Time>) -> Option<CollectResult> {
    let lines = log.into_iter().map(|s| s.to_string()).collect();
    collect_blocks(lines, end.as_ref(), &TTConfig::default()).unwrap()
}

fn day(log: Vec<&str>) -> Summary {
    collected(log, None).unwrap().summary
}

fn a_day() -> Summary {
    day(vec![
        "8:00 a =x t1",
        "9:00 b all",
        "9:30 _meeting",
        "10:00 break",
        "10:30 a t2 resume:4",
        "11:00 end",
    ])
}

fn pairs(lines: Vec<(&str, &str)>) -> Option<Vec<(String, String)>> {
    Some(lines.into_iter().map(|(a, b)| (a.to_string(), b.to_string())).collect())
}

fn strings(lines: Vec<&str>) -> Option<Vec<String>> {
    Some(lines.into_iter().map(|s| s.to_string()).collect())
}

#[test]
fn long_report_of_a_day() {
    assert_eq!(
        long_report_lines(&a_day(), &None),
        pairs(vec![
            ("- a                1:30 + 0:23 = 1:53  =x, t1(1:00), t2(0:30)", "a"),
            ("- b                0:30 + 0:08 = 0:38  all", "b"),
            ("- _meeting        (0:30)", "_meeting"),
            ("- break           (0:30)", "break"),
        ])
    );
}

#[test]
fn long_report_with_a_cutoff() {
    // b is too short: it is shown like what is spread, and a takes all of the pool
    assert_eq!(
        long_report_lines(&a_day(), &Some(Duration::minutes(31))),
        pairs(vec![
            ("- a                1:30 + 1:00 = 2:30  =x, t1(1:00), t2(0:30)", "a"),
            ("- b               (0:30)", "b"),
            ("- _meeting        (0:30)", "_meeting"),
            ("- break           (0:30)", "break"),
        ])
    );
}

#[test]
fn long_report_pads_short_names_only() {
    let summary =
        day(vec!["8:00 name-of-15-char", "9:30 a-name-of-16-chr", "10:30 a-name-of-17-char", "11:00 end"]);
    assert_eq!(
        long_report_lines(&summary, &None),
        pairs(vec![
            ("- name-of-15-char  1:30 + 0:00 = 1:30  ", "name-of-15-char"),
            ("- a-name-of-16-chr 1:00 + 0:00 = 1:00  ", "a-name-of-16-chr"),
            ("- a-name-of-17-char 0:30 + 0:00 = 0:30  ", "a-name-of-17-char"),
        ])
    );
}

#[test]
fn long_report_beyond_durations_is_nothing() {
    let mut activities = NameMap::new();
    activities.insert("a".to_string(), (Duration::seconds(2), NameMap::new()));
    let summary = Summary {
        start: Time::from_hms(0, 0, 0),
        end: Time::from_hms(0, 0, 0),
        breaks: Duration::zero(),
        work_time: Duration::seconds(i64::MAX),
        activities,
        distribute: Duration::seconds(i64::MAX - 1),
    };
    assert_eq!(long_report_lines(&summary, &None), None);
    assert_eq!(report(&None, &SummaryFormat::Long, &None), strings(vec!["No activities found."]));
    let collected = Some(CollectResult {
        summary,
        final_activity: "a".to_string(),
        final_shortname: None,
        final_start: Time::from_hms(0, 0, 0),
    });
    assert_eq!(report(&collected, &SummaryFormat::Long, &None), None);
    assert!(report(&collected, &SummaryFormat::Short, &None).is_some());
}

#[test]
fn order_of_a_report() {
    // by rank, then the longer first, then by name
    let summary = day(vec![
        "8:00 b",
        "8:10 a",
        "8:20 _y",
        "8:40 c",
        "9:00 _x",
        "9:20 break",
        "9:30 d",
        "9:40 end",
        "9:50 z",
    ]);
    let names: Vec<String> =
        report_order(&summary.activities).iter().map(|&i| summary.activities.name_at(i).clone()).collect();
    assert_eq!(names, vec!["c", "a", "b", "d", "_x", "_y", "break", "end"]);
}

#[test]
fn reports_of_each_kind() {
    let open = collected(vec!["8:00 a =x t1"], Some(Time::from_hms(9, 0, 0)));
    let done = collected(
        vec!["8:00 a =x t1", "9:00 b all", "9:30 _meeting", "10:00 break", "10:30 a", "11:00 end"],
        None,
    );
    let lines = |result: &Option<CollectResult>, format| report(result, &format, &None);
    for format in [
        SummaryFormat::Status,
        SummaryFormat::Short,
        SummaryFormat::Long,
        SummaryFormat::Tickets,
        SummaryFormat::Table,
        SummaryFormat::Activity,
        SummaryFormat::Ticket,
        SummaryFormat::Worktime,
    ] {
        assert_eq!(lines(&None, format), strings(vec!["No activities found."]));
    }
    assert_eq!(
        lines(&open, SummaryFormat::Status),
        strings(vec!["a =x since 08:00 (1:00) wt: 1:00 dt: 0:00"])
    );
    assert_eq!(
        lines(&done, SummaryFormat::Status),
        strings(vec!["end since 11:00 (0:00) wt: 2:30 dt: 0:30"])
    );
    assert_eq!(lines(&done, SummaryFormat::Tickets), strings(vec!["_meeting", "a", "b", "break"]));
    assert_eq!(
        lines(&done, SummaryFormat::Short),
        strings(vec!["start: 08:00, end: 11:00, breaks: 0:30, work time: 2:30, distribute: 0:30"])
    );
    assert_eq!(
        lines(&done, SummaryFormat::Long),
        strings(vec![
            "start: 08:00, end: 11:00, breaks: 0:30, work time: 2:30, distribute: 0:30",
            "- a                1:30 + 0:23 = 1:53  =x, t1(1:00)",
            "- b                0:30 + 0:08 = 0:38  all",
            "- _meeting        (0:30)",
            "- break           (0:30)",
        ])
    );
    assert_eq!(lines(&open, SummaryFormat::Activity), strings(vec!["=x"]));
    assert_eq!(lines(&done, SummaryFormat::Activity), strings(vec!["end"]));
    assert_eq!(lines(&open, SummaryFormat::Ticket), strings(vec!["a"]));
    assert_eq!(lines(&done, SummaryFormat::Worktime), strings(vec!["150"]));
    assert_eq!(lines(&done, SummaryFormat::Table), strings(vec![]));
    let back = collected(vec!["8:00 a", "9:00 b", "9:01 really 7:00"], None);
    assert_eq!(lines(&back, SummaryFormat::Worktime), strings(vec!["-60"]));
}

fn number(year: i32, month: u32, day: u32) -> i32 {
    NaiveDate::from_ymd_opt(year, month, day).unwrap().num_days_from_ce()
}

#[test]
fn days_of_a_report() {
    let today = number(2020, 6, 3); // a Wednesday
    let days = |list: Vec<(i32, bool)>| -> Option<Vec<(i64, bool)>> {
        Some(list.into_iter().map(|(d, t)| (d as i64, t)).collect())
    };
    assert_eq!(report_dates(today, None, false, false), days(vec![(today, true)]));
    assert_eq!(report_dates(today, None, true, false), days(vec![(today - 1, false)]));
    assert_eq!(
        report_dates(today, Some(number(2020, 5, 1)), false, false),
        days(vec![(number(2020, 5, 1), false)])
    );
    assert_eq!(
        report_dates(today, None, false, true),
        days(vec![(today - 2, false), (today - 1, false), (today, true)])
    );
    assert_eq!(
        report_dates(today, None, true, true),
        days(vec![(today - 2, false), (today - 1, false)])
    );
    // a Sunday: the whole week before it
    let sunday = number(2020, 5, 31);
    assert_eq!(
        report_dates(today, Some(sunday), false, true),
        days((0..7).map(|i| (sunday - 6 + i, false)).collect())
    );
    // a Monday before which the calendar ends
    assert_eq!(report_dates(today, Some(i32::MIN), true, true), None);
    assert_eq!(report_dates(today, Some(i32::MAX), false, true), None);
    assert_eq!(
        report_dates(today, Some(i32::MIN), true, false),
        Some(vec![(i32::MIN as i64 - 1, false)])
    );
}

#[test]
fn week_days_of_the_calendar() {
    // the days from the Monday before a day to that day are one more than the
    // days that the day lies after a Monday
    let after_monday =
        |day: i32| report_dates(0, Some(day), false, true).map(|days| days.len() as i64 - 1);
    let first = NaiveDate::MIN.num_days_from_ce();
    let last = NaiveDate::MAX.num_days_from_ce();
    assert_eq!(first, -95_746_129);
    assert_eq!(last, 95_745_399);
    let samples = (first..first + 15)
        .chain(-15..15)
        .chain(last - 15..=last)
        .chain((first..last).step_by(999_983));
    for day in samples {
        let date = NaiveDate::from_num_days_from_ce_opt(day).unwrap();
        assert_eq!(after_monday(day), Some(date.weekday().num_days_from_monday() as i64));
        assert_eq!(after_monday(day), Some((day as i64 - 1).rem_euclid(7)));
    }
    assert_eq!(after_monday(first - 1), None);
    assert_eq!(after_monday(last + 1), None);
    assert_eq!(report_dates(0, Some(first), true, true), None);
    assert_eq!(
        report_dates(0, Some(last + 1), true, true).map(|days| days.len() as i64),
        Some((last as i64 - 1).rem_euclid(7) + 1)
    );
    // the first of January of the year 1 is day 1 and a Monday
    assert_eq!(after_monday(1), Some(0));
    assert_eq!(after_monday(0), Some(6));
}

#[test]
fn days_before_a_day() {
    assert_eq!(days_until(10, None, false, 0), vec![(10, true)]);
    assert_eq!(days_until(10, None, true, 2), vec![(7, false), (8, false), (9, false)]);
    assert_eq!(days_until(10, Some(11), true, 1), vec![(9, false), (10, true)]);
    assert_eq!(
        days_until(0, Some(i32::MIN), true, 1),
        vec![(i32::MIN as i64 - 2, false), (i32::MIN as i64 - 1, false)]
    );
    assert_eq!(days_until(i32::MAX, None, false, u32::MIN).len(), 1);
}

#[test]
fn table_of_a_week() {
    let monday = day(vec!["8:00 a", "9:00 _x", "10:00 b", "11:00 end"]);
    let tuesday = day(vec!["8:00 b", "9:00 break", "10:00 c", "10:30 end"]);
    let table = daily_activities(&vec![monday, tuesday], None, false).unwrap();
    assert_eq!(table.len(), 3);
    assert_eq!(
        table.get("a"),
        Some(&DailyActivity {
            durations: vec![Some(Duration::minutes(90)), None],
            total: Duration::minutes(90),
        })
    );
    assert_eq!(
        table.get("b"),
        Some(&DailyActivity {
            durations: vec![Some(Duration::minutes(90)), Some(Duration::minutes(60))],
            total: Duration::minutes(150),
        })
    );
    assert_eq!(
        table.get("c"),
        Some(&DailyActivity {
            durations: vec![None, Some(Duration::minutes(30))],
            total: Duration::minutes(30),
        })
    );
    assert_eq!(daily_activities(&vec![], None, true).map(|t| t.len()), Some(0));
}

#[test]
fn table_beyond_durations_is_nothing() {
    let huge = || {
        let mut activities = NameMap::new();
        activities.insert("a".to_string(), (Duration::seconds(i64::MAX), NameMap::new()));
        Summary {
            start: Time::from_hms(0, 0, 0),
            end: Time::from_hms(0, 0, 0),
            breaks: Duration::zero(),
            work_time: Duration::seconds(i64::MAX),
            activities,
            distribute: Duration::zero(),
        }
    };
    assert!(daily_activities(&vec![huge()], None, false).is_some());
    assert!(daily_activities(&vec![huge(), huge()], None, false).is_none());
}
