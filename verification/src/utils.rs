//! Clock times and durations as text, and the expansion of activities that
//! are bare numbers.

use crate::configfile::TTConfig;
use crate::text::is_space;
use crate::time::{Duration, Time};
use chrono::Timelike;
use vstd::prelude::*;

verus! {

/// Whether `c` is one of the digits `0` to `9`.
pub open spec fn is_digit(c: char) -> bool {
    48 <= c as int <= 57
}

/// The number that one or two digits write, if `s` is that.
pub open spec fn short_number(s: Seq<char>) -> Option<int> {
    if s.len() == 1 && is_digit(s[0]) {
        Some(s[0] as int - 48)
    } else if s.len() == 2 && is_digit(s[0]) && is_digit(s[1]) {
        Some(10 * (s[0] as int - 48) + (s[1] as int - 48))
    } else {
        None
    }
}

/// `s` without the white space at its beginning.
pub open spec fn skip_whitespace(s: Seq<char>) -> Seq<char>
    decreases s.len(),
{
    if s.len() > 0 && is_space(s[0]) {
        skip_whitespace(s.drop_first())
    } else {
        s
    }
}

/// The hour and minute that `hour` and `minute` write, if they write a
/// time of the day.
pub open spec fn hour_and_minute(hour: Seq<char>, minute: Seq<char>) -> Option<(int, int)> {
    match (short_number(hour), short_number(skip_whitespace(minute))) {
        (Some(h), Some(m)) => if h <= 23 && m <= 59 {
            Some((h, m))
        } else {
            None
        },
        _ => None,
    }
}

/// The hour and minute that a text of the form `HH:MM` gives: one or two
/// digits, a colon, one or two digits, with the hour at most 23 and the
/// minute at most 59. White space in front of either number is passed
/// over; nothing else may stand in the text.
pub open spec fn clock_reading(s: Seq<char>) -> Option<(int, int)> {
    let t = skip_whitespace(s);
    if t.len() >= 2 && t[1] == ':' {
        hour_and_minute(t.take(1), t.skip(2))
    } else if t.len() >= 3 && t[2] == ':' {
        hour_and_minute(t.take(2), t.skip(3))
    } else {
        None
    }
}

/// The time of day, in seconds since midnight, that a text of the form
/// `HH:MM` gives.
pub open spec fn time_reading(s: Seq<char>) -> Option<int> {
    match clock_reading(s) {
        Some((h, m)) => Some(h * 3600 + m * 60),
        None => None,
    }
}

/// The digit for a number below ten.
pub open spec fn digit(n: int) -> char {
    (n + 48) as char
}

/// The text `HH:MM` for an hour and a minute, each with two digits.
pub open spec fn clock_text(hour: int, minute: int) -> Seq<char> {
    seq![digit(hour / 10), digit(hour % 10), ':', digit(minute / 10), digit(minute % 10)]
}

/// The text `HH:MM` for a time of day given in seconds since midnight.
pub open spec fn time_text(seconds: int) -> Seq<char> {
    clock_text(seconds / 3600, (seconds / 60) % 60)
}

/// The reason why chrono could not read a text as a time.
#[verifier::external_type_specification]
#[verifier::external_body]
pub struct ExParseError(chrono::format::ParseError);

/// `chrono::NaiveTime::parse_from_str` with the format `%H:%M`. It reads
/// an hour of one or two digits, a colon and a minute of one or two digits,
/// passes over white space in front of either number, accepts nothing
/// before, between or after them, and refuses an hour above 23 or a minute
/// above 59.
#[verifier::external_body]
fn read_clock(s: &str) -> (read: Result<(u32, u32), chrono::format::ParseError>)
    ensures
        read is Ok <==> clock_reading(s@) is Some,
        read matches Ok(hm) ==> clock_reading(s@) == Some((hm.0 as int, hm.1 as int)),
{
    match chrono::NaiveTime::parse_from_str(s, "%H:%M") {
        Ok(time) => Ok((time.hour(), time.minute())),
        Err(error) => Err(error),
    }
}

/// `chrono::NaiveTime::format` with the format `%H:%M`, which writes the
/// hour and the minute with two digits each and a colon between them.
#[verifier::external_body]
fn write_clock(hour: u32, minute: u32) -> (text: String)
    requires
        hour < 24,
        minute < 60,
    ensures
        text@ == clock_text(hour as int, minute as int),
{
    chrono::NaiveTime::from_hms_opt(hour, minute, 0).unwrap().format("%H:%M").to_string()
}

/// Reads a time of day written as `HH:MM`.
pub fn parse_time(s: &str) -> (time: Result<Time, chrono::format::ParseError>)
    ensures
        time is Ok <==> time_reading(s@) is Some,
        time matches Ok(t) ==> time_reading(s@) == Some(t@),
{
    match read_clock(s) {
        Ok((hour, minute)) => Ok(Time::from_hms(hour, minute, 0)),
        Err(error) => Err(error),
    }
}

/// Writes a time of day as `HH:MM`, leaving out the seconds.
pub fn format_time(t: &Time) -> (text: String)
    ensures
        text@ == time_text(t@),
{
    write_clock(t.hour(), t.minute())
}

/// Reads a duration written as `HH:MM`.
pub fn parse_duration(s: &str) -> (duration: Result<Duration, chrono::format::ParseError>)
    ensures
        duration is Ok <==> time_reading(s@) is Some,
        duration matches Ok(d) ==> time_reading(s@) == Some(d@),
{
    match parse_time(s) {
        Ok(time) => Ok(Duration::seconds(time.num_seconds_from_midnight() as i64)),
        Err(error) => Err(error),
    }
}

/// The name of an activity with the configured prefix and a hyphen in
/// front of it if the activity begins with a digit and a prefix is
/// configured; the activity itself otherwise.
pub open spec fn with_prefix(activity: Seq<char>, prefix: Option<Seq<char>>) -> Seq<char> {
    match prefix {
        Some(p) => if activity.len() > 0 && is_digit(activity[0]) {
            p + seq!['-'] + activity
        } else {
            activity
        },
        None => activity,
    }
}

/// The prefix of the settings as a text.
pub open spec fn prefix_of(config: TTConfig) -> Option<Seq<char>> {
    match config.prefix {
        Some(p) => Some(p@),
        None => None,
    }
}

/// If the activity is a bare ticket number, returns the full ticket name:
/// the configured prefix, a hyphen and the number.
pub fn resolve_prefix_for_number(activity: &str, config: &TTConfig) -> (name: String)
    ensures
        name@ == with_prefix(activity@, prefix_of(*config)),
{
    let mut chars = activity.chars();
    let first = chars.next();
    match (first, &config.prefix) {
        (Some(c), Some(prefix)) => {
            if '0' <= c && c <= '9' {
                let mut name = prefix.clone();
                proof {
                    reveal_strlit("-");
                    assert("-"@ =~= seq!['-']);
                }
                name.append("-");
                name.append(activity);
                name
            } else {
                String::from_str(activity)
            }
        },
        _ => String::from_str(activity),
    }
}

/// The decimal digits of a number, without leading zeros.
pub open spec fn decimal(n: nat) -> Seq<char>
    decreases n,
{
    if n < 10 {
        seq![digit(n as int)]
    } else {
        decimal(n / 10).push(digit((n % 10) as int))
    }
}

/// The whole minutes nearest to a number of seconds, a half counting up for
/// a positive number and towards zero for a negative one, reduced to the
/// range of sixteen bits.
pub open spec fn minutes_shown(seconds: int) -> int {
    let shifted = seconds + 30;
    let minutes = if shifted >= 0 {
        shifted / 60
    } else {
        -((-shifted) / 60)
    };
    minutes % 65536
}

/// A duration as hours and minutes: the hours in decimal, a colon, and
/// the minutes with two digits.
pub open spec fn duration_text(seconds: int) -> Seq<char> {
    let minutes = minutes_shown(seconds);
    decimal((minutes / 60) as nat) + seq![
        ':',
        digit((minutes % 60) / 10),
        digit((minutes % 60) % 10),
    ]
}

/// The character for a digit.
pub fn digit_char(d: u64) -> (c: char)
    requires
        d < 10,
    ensures
        c == digit(d as int),
{
    if d == 0 {
        '0'
    } else if d == 1 {
        '1'
    } else if d == 2 {
        '2'
    } else if d == 3 {
        '3'
    } else if d == 4 {
        '4'
    } else if d == 5 {
        '5'
    } else if d == 6 {
        '6'
    } else if d == 7 {
        '7'
    } else if d == 8 {
        '8'
    } else {
        '9'
    }
}

/// Appends the decimal digits of `n` to `text`.
pub fn push_decimal(text: &mut String, n: u64)
    ensures
        final(text)@ == old(text)@ + decimal(n as nat),
    decreases n,
{
    if n >= 10 {
        push_decimal(text, n / 10);
    }
    text.push(digit_char(n % 10));
    proof {
        if n >= 10 {
            assert(old(text)@ + decimal((n / 10) as nat).push(digit((n % 10) as int)) =~= (old(
                text,
            )@ + decimal((n / 10) as nat)).push(digit((n % 10) as int)));
        } else {
            assert(old(text)@ + seq![digit(n as int)] =~= old(text)@.push(digit(n as int)));
        }
    }
}

/// Writes a duration as `H:MM`, rounded to minutes.
pub fn format_duration(duration: &Duration) -> (text: String)
    ensures
        text@ == duration_text(duration@),
{
    let shifted: i128 = duration.secs as i128 + 30;
    let minutes: i128 = if shifted >= 0 {
        shifted / 60
    } else {
        -((-shifted) / 60)
    };
    let low: i128 = if minutes >= 0 {
        minutes % 65536
    } else {
        let r: i128 = (-minutes) % 65536;
        if r == 0 {
            0
        } else {
            65536 - r
        }
    };
    assert(low == minutes % 65536) by (nonlinear_arith)
        requires
            0 <= low < 65536,
            minutes >= 0 ==> low == minutes % 65536,
            minutes < 0 ==> (if (-minutes) % 65536 == 0 {
                low == 0
            } else {
                low == 65536 - (-minutes) % 65536
            }),
    ;
    let shown: u64 = low as u64;
    let mut text = String::new();
    push_decimal(&mut text, shown / 60);
    let rest: u64 = shown % 60;
    text.push(':');
    text.push(digit_char(rest / 10));
    text.push(digit_char(rest % 10));
    proof {
        assert(text@ =~= duration_text(duration@));
    }
    text
}

/// A time of day that is written as text reads as the time from which
/// its seconds are left out.
pub proof fn lemma_time_text_reads_back(seconds: int)
    requires
        0 <= seconds < 86_400,
    ensures
        time_reading(time_text(seconds)) == Some(seconds - seconds % 60),
        crate::text::is_word(time_text(seconds)),
        time_text(seconds).len() == 5,
        is_digit(time_text(seconds)[0]),
{
    let hour = seconds / 3600;
    let minute = (seconds / 60) % 60;
    let text = time_text(seconds);
    assert(0 <= hour <= 23 && 0 <= minute <= 59);
    assert(text[0] as int == hour / 10 + 48);
    assert(text[1] as int == hour % 10 + 48);
    assert(text[2] as int == 58);
    assert(text[3] as int == minute / 10 + 48);
    assert(text[4] as int == minute % 10 + 48);
    assert(skip_whitespace(text) == text);
    assert(text.take(2) =~= seq![text[0], text[1]]);
    assert(text.skip(3) =~= seq![text[3], text[4]]);
    assert(short_number(text.take(2)) == Some(hour));
    assert(skip_whitespace(text.skip(3)) == text.skip(3));
    assert(short_number(text.skip(3)) == Some(minute));
    assert(clock_reading(text) == Some((hour, minute)));
    assert(hour * 3600 + minute * 60 == seconds - seconds % 60) by (nonlinear_arith)
        requires
            hour == seconds / 3600,
            minute == (seconds / 60) % 60,
            0 <= seconds,
    ;
}

/// The number that the digits `s` write.
pub open spec fn number_value(s: Seq<char>) -> nat
    decreases s.len(),
{
    if s.len() == 0 {
        0
    } else {
        10 * number_value(s.drop_last()) + (s.last() as int - 48) as nat
    }
}

/// Whether `s` holds digits only.
pub open spec fn all_digits(s: Seq<char>) -> bool {
    forall|i: int| 0 <= i < s.len() ==> is_digit(#[trigger] s[i])
}

/// The count that a text writes: digits, at least one, after a `+` or
/// without it, for a number that the machine can count up to.
pub open spec fn count_reading(s: Seq<char>) -> Option<nat> {
    let digits = if s.len() > 0 && s[0] == '+' {
        s.skip(1)
    } else {
        s
    };
    if digits.len() > 0 && all_digits(digits) && number_value(digits) <= usize::MAX {
        Some(number_value(digits))
    } else {
        None
    }
}

/// Reads a count.
pub fn parse_count(s: &str) -> (count: Option<usize>)
    ensures
        match count_reading(s@) {
            Some(n) => count == Some(n as usize),
            None => count is None,
        },
{
    let ghost digits = if s@.len() > 0 && s@[0] == '+' {
        s@.skip(1)
    } else {
        s@
    };
    let mut value: usize = 0;
    let mut too_big = false;
    let mut seen_digit = false;
    let mut first = true;
    let ghost mut done: int = 0;
    proof {
        assert(digits.take(0) =~= Seq::<char>::empty());
    }
    for c in it: s.chars()
        invariant
            it.seq() == s@,
            first == (it.index() == 0),
            digits == if s@.len() > 0 && s@[0] == '+' {
                s@.skip(1)
            } else {
                s@
            },
            done == if s@.len() > 0 && s@[0] == '+' && it.index() > 0 {
                it.index() - 1
            } else {
                it.index() as int
            },
            0 <= done <= digits.len(),
            seen_digit == (done > 0),
            all_digits(digits.take(done)),
            too_big ==> number_value(digits.take(done)) > usize::MAX,
            !too_big ==> number_value(digits.take(done)) == value,
    {
        if first && c == '+' {
            first = false;
        } else {
            first = false;
            proof {
                assert(digits[done] == c);
                assert(digits.take(done + 1).drop_last() =~= digits.take(done));
                assert(digits.take(done + 1).last() == c);
            }
            if !('0' <= c && c <= '9') {
                proof {
                    assert(!is_digit(digits[done]));
                }
                return None;
            }
            let d: usize = (c as u32 - '0' as u32) as usize;
            if !too_big && value <= (usize::MAX - d) / 10 {
                value = value * 10 + d;
            } else {
                too_big = true;
            }
            seen_digit = true;
            proof {
                assert forall|i: int| 0 <= i < done + 1 implies is_digit(
                    #[trigger] digits.take(done + 1)[i],
                ) by {
                    if i < done {
                        assert(digits.take(done)[i] == digits[i]);
                    }
                }
                done = done + 1;
            }
        }
    }
    proof {
        assert(digits.take(digits.len() as int) =~= digits);
    }
    if seen_digit && !too_big {
        Some(value)
    } else {
        None
    }
}

} // verus!
