use timetracker::configfile::TTConfig;
use timetracker::error::{TTError, TTErrorKind};
use timetracker::subcommands::is_active::is_active;
use timetracker::time::Time;

fn lines(text: Vec<&str>) -> Vec<String> {
    text.into_iter().map(|s| s.to_string()).collect()
}

#[test]
fn end_with_break() {
    let lines = lines(vec!["8:30 start", "10:00 break"]);
    assert!(!is_active(&Time::from_hms(11, 0, 0), lines, &TTConfig::default()).unwrap());
}

#[test]
fn end_not_with_break() {
    let lines = lines(vec!["8:30 start"]);
    assert!(is_active(&Time::from_hms(11, 0, 0), lines, &TTConfig::default()).unwrap());
}

#[test]
fn empty() {
    let lines = lines(vec![]);
    assert!(!is_active(&Time::from_hms(11, 0, 0), lines, &TTConfig::default()).unwrap());
}

#[test]
fn the_end_of_the_day_counts_as_activity() {
    let lines = lines(vec!["8:30 start", "10:00 end"]);
    assert!(is_active(&Time::from_hms(11, 0, 0), lines, &TTConfig::default()).unwrap());
}

#[test]
fn is_active_passes_errors_on() {
    let log = lines(vec!["8:30 start", "oops"]);
    match is_active(&Time::from_hms(11, 0, 0), log, &TTConfig::default()) {
        Err(TTError { kind: TTErrorKind::ParseError(msg, line), context: _ }) => {
            assert_eq!(msg, "cannot parse start time");
            assert_eq!(line, "oops");
        }
        _ => panic!("Expected a ParseError"),
    }
    let log = lines(vec!["8:30 start"]);
    match is_active(&Time::from_hms(8, 0, 0), log, &TTConfig::default()) {
        Err(TTError { kind: TTErrorKind::UsageError(_), context: _ }) => (),
        _ => panic!("Expected a UsageError"),
    }
}
