use timetracker::configfile::{TTConfig, WatchI3Config};
use timetracker::time::{Duration, Time};
use timetracker::utils::{
    format_duration, format_time, parse_count, parse_duration, parse_time,
    resolve_prefix_for_number,
};

#[test]
fn format_duration_almost_one_hour() {
    assert_eq!(format_duration(&Duration::milliseconds(3599999)), "1:00");
}

#[test]
fn durations_as_hours_and_minutes() {
    assert_eq!(format_duration(&Duration::minutes(90)), "1:30");
    assert_eq!(format_duration(&Duration::zero()), "0:00");
    assert_eq!(format_duration(&Duration::seconds(29)), "0:00");
    assert_eq!(format_duration(&Duration::seconds(30)), "0:01");
    assert_eq!(format_duration(&Duration::seconds(3569)), "0:59");
    assert_eq!(format_duration(&Duration::seconds(3570)), "1:00");
    assert_eq!(format_duration(&Duration::minutes(25 * 60 + 7)), "25:07");
    assert_eq!(format_duration(&Duration::minutes(1000 * 60 + 59)), "1000:59");
    // negative spans round towards zero and wrap at sixteen bits
    assert_eq!(format_duration(&Duration::seconds(-60)), "0:00");
    assert_eq!(format_duration(&Duration::seconds(-90)), "1092:15");
    assert_eq!(format_duration(&Duration::minutes(65536 + 61)), "1:01");
}

#[test]
fn times_as_text() {
    assert_eq!(format_time(&Time::from_hms(15, 23, 0)), "15:23");
    assert_eq!(format_time(&Time::from_hms(0, 0, 0)), "00:00");
    assert_eq!(format_time(&Time::from_hms(9, 5, 59)), "09:05");
    assert_eq!(format_time(&Time::from_hms(23, 59, 59)), "23:59");
}

#[test]
fn text_as_times() {
    assert_eq!(parse_time("15:23").ok(), Some(Time::from_hms(15, 23, 0)));
    assert_eq!(parse_time("7:15").ok(), Some(Time::from_hms(7, 15, 0)));
    assert_eq!(parse_time(" 7: 15").ok(), Some(Time::from_hms(7, 15, 0)));
    assert_eq!(parse_time("\u{2003}07:\t5").ok(), Some(Time::from_hms(7, 5, 0)));
    assert!(parse_time("7 :15").is_err());
    assert!(parse_time("7:15 ").is_err());
    assert!(parse_time("").is_err());
    assert!(parse_time(":").is_err());
    assert!(parse_time("1::5").is_err());
    assert!(parse_time("1:2:").is_err());
    assert!(parse_time("1:234").is_err());
    assert!(parse_time("1é:23").is_err());
    assert!(parse_time("+1:23").is_err());
    assert!(parse_time("24:00").is_err());
    assert!(parse_time("23:60").is_err());
}

#[test]
fn text_as_durations() {
    assert_eq!(parse_duration("01:54").map(|d| d.num_minutes()).ok(), Some(60 + 54));
    assert_eq!(parse_duration("0:00").ok(), Some(Duration::zero()));
    assert!(parse_duration("24:00").is_err());
}

#[test]
fn times_round_trip_through_text() {
    for hour in 0..24 {
        for minute in 0..60 {
            let time = Time::from_hms(hour, minute, 0);
            assert_eq!(parse_time(&format_time(&time)).ok(), Some(time));
        }
    }
}

#[test]
fn bare_numbers_get_the_prefix() {
    let config = TTConfig {
        prefix: Some("JIRAPROJECT".to_string()),
        watch_i3: WatchI3Config { granularity: 10, timeblock: 120, timeblock_empty: 300 },
    };
    assert_eq!(resolve_prefix_for_number("234", &config), "JIRAPROJECT-234");
    assert_eq!(resolve_prefix_for_number("2nd-thing", &config), "JIRAPROJECT-2nd-thing");
    assert_eq!(resolve_prefix_for_number("x234", &config), "x234");
    assert_eq!(resolve_prefix_for_number("", &config), "");
    assert_eq!(resolve_prefix_for_number("٣", &config), "٣");
    assert_eq!(resolve_prefix_for_number("234", &TTConfig::default()), "234");
}

#[test]
fn clock_arithmetic() {
    let noon = Time::from_hms(12, 0, 0);
    assert_eq!(noon.minus_minutes(120), Time::from_hms(10, 0, 0));
    assert_eq!(noon.minus_minutes(0), noon);
    assert_eq!(noon.minus_minutes(-30), Time::from_hms(12, 30, 0));
    assert_eq!(noon.minus_minutes(13 * 60), Time::from_hms(23, 0, 0));
    assert_eq!(noon.minus_minutes(-12 * 60), Time::from_hms(0, 0, 0));
    assert_eq!(noon.minus_minutes(1440 * 3 + 1), Time::from_hms(11, 59, 0));
    assert_eq!(noon.minus_minutes(i64::MAX), Time::from_hms(17, 53, 0));
    assert_eq!(Time::from_hms(1, 2, 3).num_seconds_from_midnight(), 3723);
    assert_eq!(Time::from_hms(23, 59, 58).hour(), 23);
    assert_eq!(Time::from_hms(23, 59, 58).minute(), 59);
    assert_eq!(Time::from_hms(23, 59, 58).second(), 58);
    assert_eq!(Time::from_hms_opt(24, 0, 0), None);
    assert_eq!(Time::from_hms_opt(23, 59, 59), Some(Time::from_hms(23, 59, 59)));
    assert_eq!(
        Time::from_hms(8, 0, 0).signed_duration_since(&Time::from_hms(9, 30, 0)),
        Duration::minutes(-90)
    );
    assert_eq!(Duration::seconds(-119).num_minutes(), -1);
    assert_eq!(Duration::seconds(119).num_minutes(), 1);
    assert_eq!(Duration::milliseconds(-1999), Duration::seconds(-1));
}

#[test]
fn counts_from_text() {
    assert_eq!(parse_count("0"), Some(0));
    assert_eq!(parse_count("007"), Some(7));
    assert_eq!(parse_count("+12"), Some(12));
    assert_eq!(parse_count("18446744073709551615"), "18446744073709551615".parse::<usize>().ok());
    assert_eq!(parse_count("18446744073709551616"), "18446744073709551616".parse::<usize>().ok());
    assert_eq!(parse_count("99999999999999999999999"), None);
    assert_eq!(parse_count(""), None);
    assert_eq!(parse_count("+"), None);
    assert_eq!(parse_count("++1"), None);
    assert_eq!(parse_count("-1"), None);
    assert_eq!(parse_count("1 "), None);
    assert_eq!(parse_count("1+"), None);
    assert_eq!(parse_count("١"), None);
}
