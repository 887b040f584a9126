use timetracker::log_parser::BlockData;
use timetracker::subcommands::add::read_activities;
use timetracker::subcommands::interactive::{
    configured_shortnames, interpret, split_at_blanks, Choice,
};
use timetracker::time::Time;

#[test]
fn answers_in_the_dialogue() {
    let now = Time::from_hms(8, 0, 0);
    assert_eq!(interpret("", now), Choice::DayList);
    assert_eq!(interpret("x", now), Choice::DayList);
    assert_eq!(interpret(" 1", now), Choice::DayList);
    assert_eq!(interpret("0", now), Choice::Number(0));
    assert_eq!(interpret("17", now), Choice::Number(17));
    assert_eq!(interpret("1x", now), Choice::Unclear);
    assert_eq!(interpret("1 ", now), Choice::Unclear);
    assert_eq!(interpret("99999999999999999999999", now), Choice::Unclear);
    assert_eq!(interpret("r", now), Choice::Resume);
    assert_eq!(interpret("resume", now), Choice::Resume);
    assert_eq!(interpret("e", now), Choice::EditLog);
    assert_eq!(interpret("a", now), Choice::EditActivities);
    assert_eq!(
        interpret("+work  =w tag", now),
        Choice::Add(BlockData {
            start: now,
            activity: "+work".to_string(),
            tags: vec!["".to_string(), "=w".to_string(), "tag".to_string()],
            distribute: false,
        })
    );
    assert_eq!(
        interpret("_meeting", now),
        Choice::Add(BlockData {
            start: now,
            activity: "_meeting".to_string(),
            tags: vec![],
            distribute: true,
        })
    );
}

#[test]
fn parts_between_blanks() {
    assert_eq!(split_at_blanks(""), vec![""]);
    assert_eq!(split_at_blanks(" "), vec!["", ""]);
    assert_eq!(split_at_blanks("a b"), vec!["a", "b"]);
    assert_eq!(split_at_blanks(" a\tb  c "), vec!["", "a\tb", "", "c", ""]);
}

#[test]
fn shortnames_of_the_list() {
    let lines: Vec<String> =
        ["w work", "alone", "p play tag", "b work"].iter().map(|s| s.to_string()).collect();
    let map = read_activities(&lines).unwrap();
    assert_eq!(configured_shortnames(&map), vec!["b", "p", "w"]);
    assert_eq!(configured_shortnames(&read_activities(&vec![]).unwrap()), Vec::<String>::new());
}
