use timetracker::configfile::{TTConfig, WatchI3Config};
use timetracker::error::{TTError, TTErrorKind};
use timetracker::log_parser::{is_break, is_distributable, is_start, Block, BlockData};
use timetracker::time::Time;

fn parse(line: &str) -> Result<Block, TTError> {
    Block::from_line(line.to_string(), &TTConfig::default())
}

fn with_prefix(prefix: &str) -> TTConfig {
    TTConfig {
        prefix: Some(prefix.to_string()),
        watch_i3: WatchI3Config { granularity: 10, timeblock: 120, timeblock_empty: 300 },
    }
}

// tests for normal behaviour

#[test]
fn test_log_parser_normal_block() {
    match parse("11:30 _test bla foo") {
        Ok(Block::NormalBlock(data)) => {
            assert_eq!(data.start, Time::from_hms(11, 30, 0));
            assert_eq!(data.activity, "_test");
            assert_eq!(data.tags, vec!["bla", "foo"]);
            assert_eq!(data.distribute, true);
        }
        _ => panic!("should have been a NormalBlock"),
    }
}

#[test]
fn test_log_parser_comment_block() {
    match parse("# bla") {
        Ok(Block::CommentBlock(())) => (),
        _ => panic!("should have been a comment block"),
    }
}

#[test]
fn test_time_correction() {
    match parse("10:30 really 7:15") {
        Ok(Block::TimeCorrection(time)) => assert_eq!(time, Time::from_hms(7, 15, 0)),
        _ => panic!("should have been a time correction block"),
    }
}

#[test]
fn test_really_block() {
    match parse("0:15 really email") {
        Ok(Block::ReallyBlock(data)) => {
            assert_eq!(data.start, Time::from_hms(0, 15, 0));
            assert_eq!(data.activity, "email");
            assert_eq!(data.tags.is_empty(), true);
            assert_eq!(data.distribute, false);
        }
        _ => panic!("should have been a really block"),
    }
}

// tests for error results

#[test]
fn test_parse_time_error() {
    match parse("25:00 bla") {
        Err(TTError { kind: TTErrorKind::ParseError(msg, line), context: _ }) => {
            assert_eq!(line, "25:00 bla");
            assert_eq!(msg, "cannot parse start time");
        }
        _ => panic!("should have been a parse error"),
    }
}

#[test]
fn test_parse_no_activity_error() {
    match parse("8:01    ") {
        Err(TTError { kind: TTErrorKind::ParseError(msg, _line), context: _ }) => {
            assert_eq!(msg, "Line does not contain at least 2 words");
        }
        res => panic!("should have been a parse error, but was {:?}", res),
    }
}

#[test]
fn test_really_no_activity_error() {
    match parse("10:00 really  ") {
        Err(TTError { kind: TTErrorKind::ParseError(msg, _line), context: _ }) => {
            assert_eq!(msg, "really block does not contain an activity");
        }
        res => panic!("should have been a parse error, but was {:?}", res),
    }
}

#[test]
fn test_timecorrection_error() {
    match parse("10:00 really 09:00 foo") {
        Err(TTError { kind: TTErrorKind::ParseError(msg, _line), context: _ }) => {
            assert_eq!(
                msg,
                "time correction cannot have further data, i.e. use only <time> really <time>"
            );
        }
        res => panic!("should have been a parse error, but was {:?}", res),
    }
}

// further cases of the grammar

#[test]
fn empty_and_blank_lines_are_comments() {
    assert_eq!(parse("").unwrap(), Block::CommentBlock(()));
    assert_eq!(parse("   \t ").unwrap(), Block::CommentBlock(()));
    assert_eq!(parse("#").unwrap(), Block::CommentBlock(()));
    assert_eq!(parse("  #10:00 hidden").unwrap(), Block::CommentBlock(()));
    assert_eq!(parse("10:00 #hidden").unwrap(), Block::CommentBlock(()));
    assert_eq!(parse("10:00 # hidden really").unwrap(), Block::CommentBlock(()));
}

#[test]
fn manual_time_overrides_the_time_of_logging() {
    assert_eq!(
        parse("08:00 06:00 test-log =some-tag").unwrap(),
        Block::NormalBlock(BlockData {
            start: Time::from_hms(6, 0, 0),
            activity: "test-log".to_string(),
            tags: vec!["=some-tag".to_string()],
            distribute: false,
        })
    );
}

#[test]
fn manual_time_without_activity_is_an_error() {
    match parse("08:00 06:00") {
        Err(TTError { kind: TTErrorKind::ParseError(msg, line), context }) => {
            assert_eq!(msg, "really block does not contain an activity");
            assert_eq!(line, "08:00 06:00");
            assert!(context.is_empty());
        }
        res => panic!("should have been a parse error, but was {:?}", res),
    }
}

#[test]
fn really_block_keeps_the_time_of_logging_and_takes_tags() {
    assert_eq!(
        parse("09:00 really correct =short tag1").unwrap(),
        Block::ReallyBlock(BlockData {
            start: Time::from_hms(9, 0, 0),
            activity: "correct".to_string(),
            tags: vec!["=short".to_string(), "tag1".to_string()],
            distribute: false,
        })
    );
    assert_eq!(
        parse("09:00 really _really really").unwrap(),
        Block::ReallyBlock(BlockData {
            start: Time::from_hms(9, 0, 0),
            activity: "_really".to_string(),
            tags: vec!["really".to_string()],
            distribute: true,
        })
    );
}

#[test]
fn words_are_split_at_any_white_space() {
    assert_eq!(
        parse("\t7:05\u{a0}a\u{2003}b \u{3000} c\n").unwrap(),
        Block::NormalBlock(BlockData {
            start: Time::from_hms(7, 5, 0),
            activity: "a".to_string(),
            tags: vec!["b".to_string(), "c".to_string()],
            distribute: false,
        })
    );
}

#[test]
fn times_need_digits_a_colon_and_nothing_else() {
    for line in ["24:00 x", "7:60 x", "7 x", "7: x", ":7 x", "007:00 x", "7:000 x", "7h00 x", "-7:00 x", "7:00:00 x", "٧:00 x"] {
        match parse(line) {
            Err(TTError { kind: TTErrorKind::ParseError(msg, bad), context: _ }) => {
                assert_eq!(msg, "cannot parse start time");
                assert_eq!(bad, line);
            }
            res => panic!("{:?} should have been a parse error, but was {:?}", line, res),
        }
    }
    for (line, hour, minute) in [("0:0 x", 0, 0), ("23:59 x", 23, 59), ("7:5 x", 7, 5), ("07:05 x", 7, 5)] {
        match parse(line) {
            Ok(Block::NormalBlock(data)) => assert_eq!(data.start, Time::from_hms(hour, minute, 0)),
            res => panic!("{:?} should have been a block, but was {:?}", line, res),
        }
    }
}

#[test]
fn numbers_get_the_prefix() {
    match Block::from_line("08:00 123 tag".to_string(), &with_prefix("PREFIX")) {
        Ok(Block::NormalBlock(data)) => {
            assert_eq!(data.activity, "PREFIX-123");
            assert_eq!(data.tags, vec!["tag"]);
            assert!(!data.distribute);
        }
        res => panic!("should have been a block, but was {:?}", res),
    }
    match Block::from_line("08:00 really x123".to_string(), &with_prefix("PREFIX")) {
        Ok(Block::ReallyBlock(data)) => assert_eq!(data.activity, "x123"),
        res => panic!("should have been a block, but was {:?}", res),
    }
    match parse("08:00 123") {
        Ok(Block::NormalBlock(data)) => assert_eq!(data.activity, "123"),
        res => panic!("should have been a block, but was {:?}", res),
    }
}

#[test]
fn names_of_special_activities() {
    assert_eq!(is_distributable("normal"), false);
    assert_eq!(is_distributable("_distrib"), true);
    assert_eq!(is_distributable(""), false);
    assert_eq!(is_distributable("a_"), false);
    assert_eq!(is_break("normal"), false);
    assert_eq!(is_break("break"), true);
    assert_eq!(is_break("end"), true);
    assert_eq!(is_break("breaks"), false);
    assert_eq!(is_break("brea"), false);
    assert_eq!(is_start("start"), true);
    assert_eq!(is_start("_start"), true);
    assert_eq!(is_start("break"), false);
}

#[test]
fn from_data_picks_the_kind() {
    let data = || BlockData {
        start: Time::from_hms(10, 13, 0),
        activity: "started".to_string(),
        tags: vec![],
        distribute: false,
    };
    assert_eq!(Block::from_data(data(), true), Block::ReallyBlock(data()));
    assert_eq!(Block::from_data(data(), false), Block::NormalBlock(data()));
}

#[test]
fn blocks_as_lines() {
    let block = Block::NormalBlock(BlockData {
        start: Time::from_hms(10, 13, 0),
        activity: "started".to_string(),
        tags: vec!["tag-one".to_string(), "tag-two".to_string()],
        distribute: false,
    });
    assert_eq!(block.to_string(&Time::from_hms(10, 13, 0)), "10:13 started tag-one tag-two");
    assert_eq!(block.to_string(&Time::from_hms(10, 13, 59)), "10:13 10:13 started tag-one tag-two");
    assert_eq!(block.to_string(&Time::from_hms(8, 0, 0)), "08:00 10:13 started tag-one tag-two");
    let really = Block::ReallyBlock(BlockData {
        start: Time::from_hms(8, 0, 0),
        activity: "whatever".to_string(),
        tags: vec![],
        distribute: false,
    });
    assert_eq!(really.to_string(&Time::from_hms(8, 0, 0)), "08:00 really whatever");
    assert_eq!(really.to_string(&Time::from_hms(9, 5, 0)), "09:05 really 08:00 whatever");
    let correction = Block::TimeCorrection(Time::from_hms(8, 15, 0));
    assert_eq!(correction.to_string(&Time::from_hms(8, 0, 0)), "08:00 really 08:15");
    assert_eq!(Block::CommentBlock(()).to_string(&Time::from_hms(8, 0, 0)), "");
}

#[test]
fn lines_of_blocks_parse_to_the_blocks() {
    let blocks = vec![
        Block::NormalBlock(BlockData {
            start: Time::from_hms(0, 0, 0),
            activity: "_started".to_string(),
            tags: vec!["=s".to_string(), "#no-comment".to_string(), "really".to_string()],
            distribute: true,
        }),
        Block::ReallyBlock(BlockData {
            start: Time::from_hms(23, 59, 0),
            activity: "really".to_string(),
            tags: vec!["12:00".to_string()],
            distribute: false,
        }),
        Block::ReallyBlock(BlockData {
            start: Time::from_hms(9, 7, 0),
            activity: "#1".to_string(),
            tags: vec![],
            distribute: false,
        }),
    ];
    for block in blocks {
        let start = match &block {
            Block::NormalBlock(data) | Block::ReallyBlock(data) => data.start,
            _ => unreachable!(),
        };
        assert_eq!(parse(&block.to_string(&start)).unwrap(), block);
    }
}
