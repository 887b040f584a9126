use timetracker::configfile::TTConfig;
use timetracker::error::{TTError, TTErrorKind};
use timetracker::log_parser::{Block, BlockData};
use timetracker::subcommands::resume::{find_resume_activities, resume_block};
use timetracker::time::Time;

fn lines(text: Vec<&str>) -> Vec<String> {
    text.into_iter().map(|s| s.to_string()).collect()
}

fn strings(words: &[&str]) -> Vec<String> {
    words.iter().map(|s| s.to_string()).collect()
}

fn stack(log: Vec<&str>) -> Vec<(String, Vec<String>, usize)> {
    find_resume_activities(&lines(log), &TTConfig::default()).unwrap()
}

#[test]
fn nothing_to_resume_in_a_short_log() {
    assert!(stack(vec![]).is_empty());
    assert!(stack(vec!["8:00 a"]).is_empty());
    assert!(stack(vec!["8:00 a", "# remark", "9:00 really 8:30"]).is_empty());
}

#[test]
fn resume_stack_lists_earlier_activities_nearest_first() {
    let found = stack(vec![
        "8:00 a t1",
        "9:00 b",
        "9:30 break",
        "10:00 b t2",
        "10:30 really c",
        "11:00 c",
    ]);
    assert_eq!(
        found,
        vec![
            ("b".to_string(), strings(&["t2"]), 3),
            ("a".to_string(), strings(&["t1"]), 6),
        ]
    );
}

#[test]
fn resume_stack_follows_the_resume_tags() {
    // the last entry resumed what lay three back: the way leads from there
    let found = stack(vec![
        "8:00 a",
        "9:00 b",
        "10:00 c",
        "11:00 d",
        "12:00 b resume:3",
    ]);
    assert_eq!(found, vec![("a".to_string(), vec![], 5)]);
    // a tag without a count, or with one that is none, goes back by one
    let found = stack(vec!["8:00 a", "9:00 b", "10:00 c resume:x", "11:00 d resume:"]);
    assert_eq!(
        found,
        vec![
            ("c".to_string(), strings(&["resume:x"]), 2),
            ("b".to_string(), vec![], 3),
            ("a".to_string(), vec![], 4),
        ]
    );
    // a way back beyond the beginning ends the walk
    let found = stack(vec!["8:00 a", "9:00 b", "10:00 c resume:7"]);
    assert_eq!(found, Vec::<(String, Vec<String>, usize)>::new());
    // and so does a step by nothing
    let found = stack(vec!["8:00 a", "9:00 b resume:0", "10:00 c"]);
    assert_eq!(found, vec![("b".to_string(), strings(&["resume:0"]), 2)]);
    // the first such tag counts
    let found = stack(vec!["8:00 a", "9:00 b", "10:00 c", "11:00 d x resume:+2 resume:1"]);
    assert_eq!(found, vec![("b".to_string(), vec![], 3), ("a".to_string(), vec![], 4)]);
}

#[test]
fn resume_stack_of_a_bad_log_is_an_error() {
    match find_resume_activities(&lines(vec!["8:00 a", "9:00", "x"]), &TTConfig::default()) {
        Err(TTError { kind: TTErrorKind::ParseError(msg, line), context }) => {
            assert_eq!(msg, "Line does not contain at least 2 words");
            assert_eq!(line, "9:00");
            assert!(context.is_empty());
        }
        _ => panic!("Expected a ParseError"),
    }
}

#[test]
fn resuming_makes_a_block() {
    let found = vec![
        ("b".to_string(), strings(&["t2", "resume:4", "=b"]), 3),
        ("_a".to_string(), vec![], 12),
    ];
    assert_eq!(
        resume_block(&found, 0, Time::from_hms(12, 0, 0), false),
        Some(Block::NormalBlock(BlockData {
            start: Time::from_hms(12, 0, 0),
            activity: "+b".to_string(),
            tags: strings(&["t2", "=b", "resume:3"]),
            distribute: false,
        }))
    );
    assert_eq!(
        resume_block(&found, 1, Time::from_hms(12, 0, 0), true),
        Some(Block::ReallyBlock(BlockData {
            start: Time::from_hms(12, 0, 0),
            activity: "+_a".to_string(),
            tags: strings(&["resume:12"]),
            distribute: true,
        }))
    );
    assert_eq!(resume_block(&found, 2, Time::from_hms(12, 0, 0), true), None);
}
