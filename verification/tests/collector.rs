use timetracker::collector::{collect_blocks, ActivityDurations, BlockCollector, CollectResult};
use timetracker::configfile::TTConfig;
use timetracker::error::{TTError, TTErrorKind};
use timetracker::log_parser::{Block, BlockData};
use timetracker::name_map::NameMap;
use timetracker::time::{Duration, Time};

// a collector that has seen a normal block at 8:30 "setup"
fn setup_test() -> BlockCollector {
    let mut collector = BlockCollector::new();
    collector.add(Block::NormalBlock(BlockData {
        start: Time::from_hms(8, 30, 0),
        activity: "setup".to_string(),
        tags: vec![],
        distribute: false,
    }));
    collector
}

fn tags(entries: Vec<(&str, i64)>) -> NameMap<Duration> {
    let mut map = NameMap::new();
    for (tag, minutes) in entries {
        map.insert(tag.to_string(), Duration::minutes(minutes));
    }
    map
}

fn activities(entries: Vec<(&str, i64, Vec<(&str, i64)>)>) -> ActivityDurations {
    let mut map = NameMap::new();
    for (name, minutes, tag_entries) in entries {
        map.insert(name.to_string(), (Duration::minutes(minutes), tags(tag_entries)));
    }
    map
}

fn lines(text: Vec<&str>) -> Vec<String> {
    text.into_iter().map(|s| s.to_string()).collect()
}

#[test]
fn collector_normal_block() {
    let mut collector = setup_test();
    collector.add(Block::NormalBlock(BlockData {
        start: Time::from_hms(10, 0, 0),
        activity: "end".to_string(),
        tags: vec![],
        distribute: false,
    }));
    let CollectResult { summary, final_activity, final_shortname, final_start } =
        collector.finalize(None).unwrap();
    let expected_activities = activities(vec![("setup", 90, vec![])]);
    assert_eq!(summary.start, Time::from_hms(8, 30, 0));
    assert_eq!(summary.end, Time::from_hms(10, 0, 0));
    assert_eq!(summary.breaks.num_minutes(), 0);
    assert_eq!(summary.work_time.num_minutes(), 90);
    assert_eq!(summary.activities, expected_activities);
    assert_eq!(summary.distribute.num_minutes(), 0);

    assert_eq!(final_activity, "end");
    assert!(final_shortname.is_none());
    assert_eq!(final_start, Time::from_hms(10, 0, 0));
}

#[test]
fn really_block() {
    let mut collector = setup_test();
    collector.add(Block::ReallyBlock(BlockData {
        start: Time::from_hms(9, 0, 0),
        activity: "correct".to_string(),
        tags: vec!["=short".to_string(), "tag1".to_string()],
        distribute: false,
    }));
    let CollectResult { summary, final_activity, final_shortname, final_start } =
        collector.finalize(Some(&Time::from_hms(11, 0, 0))).unwrap();
    // correct from 8:30 - 11.00
    let expected_duration = 2 * 60 + 30;
    let expected_activities = activities(vec![(
        "correct",
        expected_duration,
        vec![("=short", expected_duration), ("tag1", expected_duration)],
    )]);
    assert_eq!(summary.start, Time::from_hms(8, 30, 0));
    assert_eq!(summary.end, Time::from_hms(11, 0, 0));
    assert_eq!(summary.breaks.num_minutes(), 0);
    assert_eq!(summary.work_time.num_minutes(), expected_duration);
    assert_eq!(summary.activities, expected_activities);
    assert_eq!(summary.distribute.num_minutes(), 0);

    assert_eq!(final_activity, "correct");
    assert_eq!(final_shortname, Some("=short".to_string()));
    assert_eq!(final_start, Time::from_hms(8, 30, 0));
}

#[test]
fn timecorrection_block() {
    let mut collector = setup_test();
    collector.add(Block::NormalBlock(BlockData {
        start: Time::from_hms(10, 0, 0),
        activity: "_something".to_string(),
        tags: vec!["other".to_string()],
        distribute: true,
    }));
    collector.add(Block::TimeCorrection(Time::from_hms(11, 0, 0)));
    let CollectResult { summary, final_activity, final_shortname, final_start } =
        collector.finalize(Some(&Time::from_hms(11, 30, 0))).unwrap();
    // setup from 08:30 - 11.00
    // _something from 11-00 - 11.30
    let expected_activities = activities(vec![
        ("setup", 2 * 60 + 30, vec![]),
        ("_something", 30, vec![("other", 30)]),
    ]);
    assert_eq!(summary.start, Time::from_hms(8, 30, 0));
    assert_eq!(summary.end, Time::from_hms(11, 30, 0));
    assert_eq!(summary.breaks.num_minutes(), 0);
    assert_eq!(summary.work_time.num_minutes(), 3 * 60);
    assert_eq!(summary.activities, expected_activities);
    assert_eq!(summary.distribute.num_minutes(), 30);

    assert_eq!(final_activity, "_something");
    assert!(final_shortname.is_none());
    assert_eq!(final_start, Time::from_hms(11, 0, 0));
}

#[test]
fn collector_comment_block() {
    let mut collector = setup_test();
    collector.add(Block::CommentBlock(()));
    collector.add(Block::NormalBlock(BlockData {
        start: Time::from_hms(10, 0, 0),
        activity: "end".to_string(),
        tags: vec![],
        distribute: false,
    }));
    let CollectResult { summary, final_activity, final_shortname, final_start } =
        collector.finalize(None).unwrap();
    let expected_activities = activities(vec![("setup", 90, vec![])]);
    assert_eq!(summary.start, Time::from_hms(8, 30, 0));
    assert_eq!(summary.end, Time::from_hms(10, 0, 0));
    assert_eq!(summary.breaks.num_minutes(), 0);
    assert_eq!(summary.work_time.num_minutes(), 90);
    assert_eq!(summary.activities, expected_activities);
    assert_eq!(summary.distribute.num_minutes(), 0);

    assert_eq!(final_activity, "end");
    assert!(final_shortname.is_none());
    assert_eq!(final_start, Time::from_hms(10, 0, 0));
}

#[test]
fn no_block() {
    let collector = BlockCollector::new();
    assert!(collector.finalize(Some(&Time::from_hms(17, 0, 0))).is_none());
}

#[test]
fn no_block_without_final_time() {
    let collector = BlockCollector::new();
    assert!(collector.finalize(None).is_none());
}

#[test]
fn one_block_with_final_time() {
    let collector = setup_test();
    let CollectResult { summary, final_activity, final_shortname, final_start } =
        collector.finalize(Some(&Time::from_hms(17, 0, 0))).unwrap();
    // 8.30-17.00: setup
    let expected_work_time = 8 * 60 + 30;
    let expected_activities = activities(vec![("setup", expected_work_time, vec![])]);
    assert_eq!(summary.start, Time::from_hms(8, 30, 0));
    assert_eq!(summary.end, Time::from_hms(17, 0, 0));
    assert_eq!(summary.breaks.num_minutes(), 0);
    assert_eq!(summary.work_time.num_minutes(), expected_work_time);
    assert_eq!(summary.activities, expected_activities);
    assert_eq!(summary.distribute.num_minutes(), 0);

    assert_eq!(final_activity, "setup");
    assert!(final_shortname.is_none());
    assert_eq!(final_start, Time::from_hms(8, 30, 0));
}

#[test]
fn one_block_without_final_time() {
    let collector = setup_test();
    let CollectResult { summary, final_activity, final_shortname, final_start } =
        collector.finalize(None).unwrap();
    // 8.30-8.30: setup
    let expected_work_time = 0;
    let expected_activities: ActivityDurations = NameMap::new();
    assert_eq!(summary.start, Time::from_hms(8, 30, 0));
    assert_eq!(summary.end, Time::from_hms(8, 30, 0));
    assert_eq!(summary.breaks.num_minutes(), 0);
    assert_eq!(summary.work_time.num_minutes(), expected_work_time);
    assert_eq!(summary.activities, expected_activities);
    assert_eq!(summary.distribute.num_minutes(), 0);

    assert_eq!(final_activity, "setup");
    assert!(final_shortname.is_none());
    assert_eq!(final_start, Time::from_hms(8, 30, 0));
}

#[test]
fn timecorrection_as_first_block() {
    let mut collector = BlockCollector::new();
    collector.add(Block::TimeCorrection(Time::from_hms(10, 0, 0)));
    assert!(collector.finalize(Some(&Time::from_hms(17, 0, 0))).is_none());
}

#[test]
fn really_as_first_block() {
    let mut collector = BlockCollector::new();
    collector.add(Block::ReallyBlock(BlockData {
        start: Time::from_hms(9, 0, 0),
        activity: "correct".to_string(),
        tags: vec![],
        distribute: false,
    }));
    assert!(collector.finalize(None).is_none());
}

#[test]
fn timecorrection_coverage() {
    let mut collector = setup_test();
    collector.add(Block::TimeCorrection(Time::from_hms(9, 0, 0)));
    collector.add(Block::NormalBlock(BlockData {
        start: Time::from_hms(9, 30, 0),
        activity: "setup".to_string(),
        tags: vec!["sometag".to_string()],
        distribute: false,
    }));
    collector.add(Block::TimeCorrection(Time::from_hms(11, 0, 0)));
    collector.add(Block::NormalBlock(BlockData {
        start: Time::from_hms(11, 5, 0),
        activity: "break".to_string(),
        tags: vec![],
        distribute: false,
    }));
    collector.add(Block::TimeCorrection(Time::from_hms(11, 10, 0)));
    collector.add(Block::NormalBlock(BlockData {
        start: Time::from_hms(11, 20, 0),
        activity: "_distribute".to_string(),
        tags: vec![],
        distribute: true,
    }));
    collector.add(Block::TimeCorrection(Time::from_hms(11, 22, 0)));
    collector.add(Block::NormalBlock(BlockData {
        start: Time::from_hms(11, 32, 0),
        activity: "_distribute".to_string(),
        tags: vec!["sometag".to_string()],
        distribute: true,
    }));
    collector.add(Block::TimeCorrection(Time::from_hms(11, 23, 0)));
    let CollectResult { summary, final_activity, final_shortname, final_start } =
        collector.finalize(Some(&Time::from_hms(12, 0, 0))).unwrap();

    //  9.00 - 11:00 setup
    // 11.00 - 11.10 setup sometag
    // 11.10 - 11.22 break
    // 11.22 - 11.23 _distribute
    // 11.23 - 12.00 _distribute sometag
    let expected_work_time = 3 * 60 - 12;
    let expected_activities = activities(vec![
        ("setup", 2 * 60 + 10, vec![("sometag", 10)]),
        ("break", 12, vec![]),
        ("_distribute", 38, vec![("sometag", 37)]),
    ]);
    assert_eq!(summary.start, Time::from_hms(9, 0, 0));
    assert_eq!(summary.end, Time::from_hms(12, 0, 0));
    assert_eq!(summary.breaks.num_minutes(), 12);
    assert_eq!(summary.work_time.num_minutes(), expected_work_time);
    assert_eq!(summary.activities, expected_activities);
    assert_eq!(summary.distribute.num_minutes(), 38);

    assert_eq!(final_activity, "_distribute");
    assert!(final_shortname.is_none());
    assert_eq!(final_start, Time::from_hms(11, 23, 0));
}

#[test]
fn test_collect_blocks() {
    let lines = lines(vec!["8:30 write-tests =test", "10:05 really 10:00", "10:30 blabla"]);
    let CollectResult { summary, final_activity, final_shortname, final_start } =
        collect_blocks(lines, Some(&Time::from_hms(12, 0, 0)), &TTConfig::default())
            .unwrap()
            .unwrap();
    assert_eq!(summary.work_time.num_minutes(), 2 * 60);
    assert_eq!(final_activity, "blabla");
    assert_eq!(final_shortname, None);
    assert_eq!(final_start, Time::from_hms(10, 30, 0));
}

#[test]
fn test_collect_blocks_error() {
    let lines = lines(vec!["8:30 write-tests", "10:05 really 10:00 parsing-error"]);
    match collect_blocks(lines, None, &TTConfig::default()) {
        Err(TTError { kind: TTErrorKind::ParseError(_msg, line), context: _ }) => {
            assert_eq!(line, "10:05 really 10:00 parsing-error")
        }
        _ => panic!("Parse Error expected"),
    }
}

#[test]
fn collect_blocks_out_of_order() {
    let lines = lines(vec!["10:30 later", "8:30 earlier"]);
    match collect_blocks(lines, None, &TTConfig::default()) {
        Err(TTError { kind: TTErrorKind::ParseError(msg, line), context }) => {
            assert_eq!(msg, "start time lies before the start of the previous entry");
            assert_eq!(line, "8:30 earlier");
            assert!(context.is_empty());
        }
        _ => panic!("Parse Error expected"),
    }
}

#[test]
fn collect_blocks_end_before_last_entry() {
    let lines = lines(vec!["10:30 later"]);
    match collect_blocks(lines, Some(&Time::from_hms(9, 0, 0)), &TTConfig::default()) {
        Err(TTError { kind: TTErrorKind::UsageError(msg), context: _ }) => {
            assert_eq!(msg, "the day cannot end before its last entry begins");
        }
        _ => panic!("Usage Error expected"),
    }
}

#[test]
fn collect_blocks_of_nothing() {
    let collected =
        collect_blocks(lines(vec![]), Some(&Time::from_hms(9, 0, 0)), &TTConfig::default());
    assert!(collected.unwrap().is_none());
    let collected = collect_blocks(lines(vec!["# nothing yet"]), None, &TTConfig::default());
    assert!(collected.unwrap().is_none());
}

#[test]
fn accepts_only_later_activities() {
    let collector = setup_test();
    let earlier = Block::NormalBlock(BlockData {
        start: Time::from_hms(8, 0, 0),
        activity: "early".to_string(),
        tags: vec![],
        distribute: false,
    });
    let same = Block::NormalBlock(BlockData {
        start: Time::from_hms(8, 30, 0),
        activity: "same".to_string(),
        tags: vec![],
        distribute: false,
    });
    assert!(!collector.accepts(&earlier));
    assert!(collector.accepts(&same));
    assert!(collector.accepts(&Block::TimeCorrection(Time::from_hms(7, 0, 0))));
    assert!(BlockCollector::new().accepts(&earlier));
}

#[test]
fn a_tag_named_twice_counts_once() {
    let mut collector = BlockCollector::new();
    collector.add(Block::NormalBlock(BlockData {
        start: Time::from_hms(8, 0, 0),
        activity: "work".to_string(),
        tags: vec!["t".to_string(), "t".to_string()],
        distribute: false,
    }));
    collector.add(Block::NormalBlock(BlockData {
        start: Time::from_hms(9, 0, 0),
        activity: "work".to_string(),
        tags: vec!["t".to_string(), "u".to_string(), "t".to_string()],
        distribute: false,
    }));
    let collected = collector.finalize(Some(&Time::from_hms(9, 30, 0))).unwrap();
    let expected = activities(vec![("work", 90, vec![("t", 90), ("u", 30)])]);
    assert_eq!(collected.summary.activities, expected);
}

#[test]
fn correction_moves_the_end_of_a_break() {
    let mut collector = BlockCollector::new();
    collector.add(Block::NormalBlock(BlockData {
        start: Time::from_hms(12, 0, 0),
        activity: "break".to_string(),
        tags: vec![],
        distribute: false,
    }));
    collector.add(Block::NormalBlock(BlockData {
        start: Time::from_hms(12, 30, 0),
        activity: "work".to_string(),
        tags: vec![],
        distribute: false,
    }));
    collector.add(Block::TimeCorrection(Time::from_hms(12, 45, 0)));
    let collected = collector.finalize(None).unwrap();
    assert_eq!(collected.summary.breaks, Duration::minutes(45));
    assert_eq!(collected.summary.end, Time::from_hms(12, 45, 0));
    assert_eq!(collected.summary.work_time, Duration::zero());
}

#[test]
fn work_and_breaks_fill_the_day() {
    let mut collector = BlockCollector::new();
    let names = ["mail", "break", "_meeting", "code", "end"];
    for (i, name) in names.iter().enumerate() {
        collector.add(Block::NormalBlock(BlockData {
            start: Time::from_hms(8 + 2 * i as u32, 7 * i as u32, 0),
            activity: name.to_string(),
            tags: vec![],
            distribute: name.starts_with('_'),
        }));
    }
    let summary = collector.finalize(None).unwrap().summary;
    assert_eq!(
        summary.work_time.num_seconds() + summary.breaks.num_seconds(),
        summary.end.signed_duration_since(&summary.start).num_seconds()
    );
    assert_eq!(summary.start, Time::from_hms(8, 0, 0));
    assert_eq!(summary.end, Time::from_hms(16, 28, 0));
    assert_eq!(summary.breaks, Duration::minutes(127));
    assert_eq!(summary.work_time, Duration::minutes(8 * 60 + 28 - 127));
    assert_eq!(summary.distribute, Duration::minutes(127));
}

#[test]
fn a_day_of_setup() {
    let collected = collect_blocks(lines(vec!["08:30 setup", "10:00 end"]), None, &TTConfig::default())
        .unwrap()
        .unwrap();
    assert_eq!(collected.summary.work_time, Duration::minutes(90));
    assert_eq!(collected.summary.breaks, Duration::zero());
    assert_eq!(collected.summary.activities, activities(vec![("setup", 90, vec![])]));
    assert_eq!(collected.final_activity, "end");
}

#[test]
fn a_day_that_was_really_something_else() {
    let collected = collect_blocks(
        lines(vec!["08:30 setup", "09:00 really correct =short tag1"]),
        Some(&Time::from_hms(11, 0, 0)),
        &TTConfig::default(),
    )
    .unwrap()
    .unwrap();
    assert_eq!(
        collected.summary.activities,
        activities(vec![("correct", 150, vec![("=short", 150), ("tag1", 150)])])
    );
    assert_eq!(collected.final_start, Time::from_hms(8, 30, 0));
    assert_eq!(collected.final_activity, "correct");
    assert_eq!(collected.final_shortname, Some("=short".to_string()));
    assert_eq!(collected.summary.end, Time::from_hms(11, 0, 0));
}

#[test]
fn totals_are_those_of_the_activities() {
    let summary = collect_blocks(
        lines(vec![
            "8:00 a",
            "9:00 _x",
            "9:10 really 9:30",
            "10:00 break",
            "10:30 a",
            "10:45 really _y",
            "11:00 end",
            "11:30 b",
            "11:20 really 11:10",
        ]),
        Some(&Time::from_hms(12, 0, 0)),
        &TTConfig::default(),
    )
    .unwrap()
    .unwrap()
    .summary;
    let total = |pick: fn(&str) -> bool| -> i64 {
        (0..summary.activities.len())
            .filter(|&i| pick(summary.activities.name_at(i)))
            .map(|i| summary.activities.value_at(i).0.num_seconds())
            .sum()
    };
    assert_eq!(summary.breaks.num_seconds(), total(|name| name == "break" || name == "end"));
    assert_eq!(summary.work_time.num_seconds(), total(|name| name != "break" && name != "end"));
    assert_eq!(summary.distribute.num_seconds(), total(|name| name.starts_with('_')));
    assert_eq!(summary.breaks, Duration::minutes(30 + 10));
    assert_eq!(summary.work_time, Duration::minutes(90 + 30 + 30 + 50));
    assert_eq!(summary.distribute, Duration::minutes(60));
}
