use timetracker::configfile::WatchI3Config;
use timetracker::log_parser::{Block, BlockData, TTInfo};
use timetracker::subcommands::add::read_activities;
use timetracker::subcommands::watch_i3::{
    min_counts, I3Rectangle, I3Workspace, WatchAction, WatchState,
};
use timetracker::time::Time;

fn workspace(num: i16, name: &str, focused: bool, output: &str) -> I3Workspace {
    I3Workspace {
        num,
        name: name.to_string(),
        visible: true,
        focused,
        rect: I3Rectangle { x: 0, y: 0, width: 1920, height: 1080 },
        output: output.to_string(),
        urgent: false,
    }
}

fn info(activity: &str, shortname: Option<&str>) -> TTInfo {
    TTInfo { activity: activity.to_string(), shortname: shortname.map(|s| s.to_string()) }
}

#[test]
fn activities_of_workspace_names() {
    let activity = |name: &str| workspace(1, name, false, "out").activity();
    assert_eq!(activity("1: work"), Some("work".to_string()));
    assert_eq!(activity("3:_x y"), Some("_x y".to_string()));
    assert_eq!(activity("ws"), Some("ws".to_string()));
    assert_eq!(activity(": a"), Some("a".to_string()));
    assert_eq!(activity("  a "), Some("a ".to_string()));
    assert_eq!(activity("2"), None);
    assert_eq!(activity("12:"), None);
    assert_eq!(activity("1:  "), None);
    assert_eq!(activity(""), None);
    assert_eq!(activity("1: 2"), None);
    assert_eq!(activity("-a"), None);
}

#[test]
fn counts_for_time_blocks() {
    let config = |granularity, timeblock, timeblock_empty| WatchI3Config {
        granularity,
        timeblock,
        timeblock_empty,
    };
    assert_eq!(min_counts(&config(10, 120, 300)), Some((12, 30)));
    assert_eq!(min_counts(&config(7, 120, 6)), Some((17, 0)));
    assert_eq!(min_counts(&config(1, 65536 + 5, 65535)), Some((5, 65535)));
    assert_eq!(min_counts(&config(0, 120, 300)), None);
}

#[test]
fn watching_notes_a_new_activity() {
    let mut state = WatchState::new(vec![1, 2]);
    assert!(!state.activity_changed(&None));
    assert!(state.activity_changed(&Some(info("work", None))));
    assert!(!state.activity_changed(&Some(info("work", None))));
    assert!(state.activity_changed(&Some(info("work", Some("w")))));
    assert!(state.activity_changed(&Some(info("play", Some("w")))));
    assert!(state.activity_changed(&None));
    assert_eq!(state.known_ws, vec![1, 2]);
}

#[test]
fn watching_counts_the_focus() {
    let mut state = WatchState::new(vec![1, 2, 5]);
    let list = vec![
        workspace(2, "2", false, "left"),
        workspace(3, "3", true, "right"),
        workspace(1, "1", true, "left"),
    ];
    assert_eq!(state.count_focus(&list), Some((1, 1)));
    assert_eq!(state.known_ws, vec![2, 1]);
    assert_eq!(state.max_count, 1);
    assert_eq!(state.count_focus(&list), Some((1, 2)));
    assert_eq!(state.max_count, 2);
    let other = vec![workspace(2, "2", true, "left"), workspace(3, "3", false, "right")];
    assert_eq!(state.count_focus(&other), Some((0, 1)));
    assert_eq!(state.max_count, 2);
    assert_eq!(state.known_ws, vec![2]);
    assert_eq!(state.focus_counter.get("right"), Some(&2));
    assert_eq!(state.focus_counter.get("left"), Some(&1));
    assert_eq!(state.count_focus(&vec![workspace(2, "2", false, "left")]), None);
    assert_eq!(state.count_focus(&vec![]), None);
    assert_eq!(state.known_ws, Vec::<i16>::new());
    assert!(!state.knows(2));
}

#[test]
fn watching_names_a_new_workspace() {
    let mut state = WatchState::new(vec![1]);
    let ws = workspace(4, "4", true, "out");
    let now = Time::from_hms(10, 0, 0);
    let action = state.watch_focus(
        &ws,
        ws.activity(),
        1,
        &Some(info("long", Some("short"))),
        None,
        Some(Time::from_hms(9, 0, 0)),
        now,
        10,
        12,
        30,
    );
    assert_eq!(
        action,
        WatchAction::Rename { name: "4".to_string(), num: 4, title: "short".to_string() }
    );
    assert_eq!(state.known_ws, vec![1, 4]);
    // once known, it is left alone
    let action = state.watch_focus(
        &ws,
        ws.activity(),
        1,
        &Some(info("long", Some("short"))),
        None,
        None,
        now,
        10,
        12,
        30,
    );
    assert_eq!(action, WatchAction::Nothing);
    // the start of something unknown has an empty title
    let mut state = WatchState::new(vec![]);
    let action =
        state.watch_focus(&ws, None, 1, &Some(info("start", None)), None, None, now, 10, 12, 30);
    assert_eq!(action, WatchAction::Rename { name: "4".to_string(), num: 4, title: "".to_string() });
    // no title for a break, and none while nothing is going on
    let mut state = WatchState::new(vec![]);
    assert_eq!(
        state.watch_focus(&ws, None, 1, &None, None, None, now, 10, 12, 30),
        WatchAction::Nothing
    );
    for activity in ["break", "end"] {
        let mut state = WatchState::new(vec![]);
        let action = state.watch_focus(
            &ws,
            None,
            1,
            &Some(info(activity, None)),
            None,
            None,
            now,
            10,
            12,
            30,
        );
        assert_eq!(action, WatchAction::Nothing);
        assert_eq!(state.known_ws, vec![4]);
    }
}

#[test]
fn watching_logs_a_settled_focus() {
    let map = read_activities(&vec!["w work".to_string()]).unwrap();
    let ws = workspace(1, "1: w", true, "out");
    let now = Time::from_hms(10, 0, 0);
    let look = |state: &mut WatchState, count: u16, current: &str, final_start: Option<Time>| {
        state.watch_focus(
            &ws,
            ws.activity(),
            count,
            &Some(TTInfo::from_string(Some(&map), current)),
            Some(&map),
            final_start,
            now,
            10,
            12,
            30,
        )
    };
    let mut state = WatchState::new(vec![1]);
    state.max_count = 11;
    state.focus_counter.insert("out".to_string(), 11);
    // not long enough yet
    assert_eq!(look(&mut state, 11, "other", None), WatchAction::Nothing);
    assert_eq!(state.max_count, 11);
    // long enough: 12 looks of 10 seconds ago
    assert_eq!(
        look(&mut state, 12, "other", Some(Time::from_hms(9, 0, 0))),
        WatchAction::Log(Block::NormalBlock(BlockData {
            start: Time::from_hms(9, 58, 0),
            activity: "work".to_string(),
            tags: vec!["=w".to_string()],
            distribute: false,
        }))
    );
    assert_eq!(state.max_count, 0);
    assert_eq!(state.focus_counter.len(), 0);
    assert_eq!(state.prev_focus_name, Some("w".to_string()));
    // not twice in a row for the same title
    assert_eq!(look(&mut state, 12, "other", None), WatchAction::Nothing);
    // not before the current activity began
    let mut state = WatchState::new(vec![1]);
    assert_eq!(
        look(&mut state, 12, "other", Some(Time::from_hms(9, 59, 0))),
        WatchAction::Log(Block::NormalBlock(BlockData {
            start: Time::from_hms(9, 59, 0),
            activity: "work".to_string(),
            tags: vec!["=w".to_string()],
            distribute: false,
        }))
    );
    // the start of something unknown is corrected as of now
    let mut state = WatchState::new(vec![1]);
    assert_eq!(
        look(&mut state, 12, "start", Some(Time::from_hms(9, 0, 0))),
        WatchAction::Log(Block::ReallyBlock(BlockData {
            start: now,
            activity: "work".to_string(),
            tags: vec!["=w".to_string()],
            distribute: false,
        }))
    );
    // nothing to log during a break, for the activity itself, or below the largest count
    for current in ["break", "work"] {
        let mut state = WatchState::new(vec![1]);
        assert_eq!(look(&mut state, 12, current, None), WatchAction::Nothing);
        assert_eq!(state.prev_focus_name, None);
    }
    let mut state = WatchState::new(vec![1]);
    state.max_count = 13;
    assert_eq!(look(&mut state, 12, "other", None), WatchAction::Nothing);
    assert_eq!(state.max_count, 13);
}

#[test]
fn watching_waits_longer_for_a_workspace_without_title() {
    let ws = workspace(1, "1", true, "out");
    let now = Time::from_hms(0, 1, 0);
    let look = |state: &mut WatchState, count: u16| {
        state.watch_focus(
            &ws,
            ws.activity(),
            count,
            &Some(info("work", None)),
            None,
            None,
            now,
            10,
            12,
            30,
        )
    };
    let mut state = WatchState::new(vec![1]);
    assert_eq!(look(&mut state, 29), WatchAction::Nothing);
    // the start of something unknown, five minutes ago: that was yesterday
    assert_eq!(
        look(&mut state, 30),
        WatchAction::Log(Block::NormalBlock(BlockData {
            start: Time::from_hms(23, 56, 0),
            activity: "start".to_string(),
            tags: vec![],
            distribute: false,
        }))
    );
    assert_eq!(state.prev_focus_name, Some("".to_string()));
}
