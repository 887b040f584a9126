//! The reports on a day: which days a report is about, what its lines
//! say, and in which order it shows the activities.

use crate::collector::{ActivityDurations, CollectResult, Summary};
use crate::distribution::{
    account_of,
    cutoff_seconds,
    cutoff_sum,
    denominator_of,
    is_duration,
    pool_of,
    rows,
    seconds_of,
    share,
    share_of,
    Account,
};
use crate::log_parser::{break_name, distributable_name, is_break, is_distributable};
use crate::name_map::NameMap;
use crate::subcommands::resume::is_resume_tag;
use crate::text::{
    begins_with,
    join_words,
    joined,
    lemma_texts_push,
    padded,
    push_padded,
    same_text,
    starts_with_char,
    starts_with_text,
    texts,
};
use crate::time::Duration;
use crate::utils::{decimal, duration_text, format_duration, format_time, push_decimal, time_text};
use chrono::Datelike;
use vstd::prelude::*;

verus! {

/// The kinds of report.
#[derive(Debug, Clone, Copy, PartialEq, Eq, Structural)]
pub enum SummaryFormat {
    /// The status, for a status bar.
    Status,
    /// The summary that is also shown when an entry is added.
    Short,
    /// The full summary.
    Long,
    /// The names of the activities.
    Tickets,
    /// A table of the days of a week.
    Table,
    /// The current activity, by its shortname if it has one.
    Activity,
    /// The current activity, by its name.
    Ticket,
    /// The work time of today in minutes.
    Worktime,
}

/// The error for a text that names no kind of report.
#[derive(Debug, PartialEq, Eq)]
pub struct ParseSummaryFormatError {
    _priv: (),
}

impl ParseSummaryFormatError {
    /// What the error says.
    pub fn to_string(&self) -> (text: String)
        ensures
            text@
                == "provided string was not `short` or `long` or `status` or `table` or `tickets`"@,
    {
        String::from_str(
            "provided string was not `short` or `long` or `status` or `table` or `tickets`",
        )
    }
}

/// The kind of report that a text names, if it names one.
pub open spec fn format_named(s: Seq<char>) -> Option<SummaryFormat> {
    if s == "short"@ {
        Some(SummaryFormat::Short)
    } else if s == "long"@ {
        Some(SummaryFormat::Long)
    } else if s == "status"@ {
        Some(SummaryFormat::Status)
    } else if s == "tickets"@ {
        Some(SummaryFormat::Tickets)
    } else if s == "table"@ {
        Some(SummaryFormat::Table)
    } else if s == "activity"@ {
        Some(SummaryFormat::Activity)
    } else if s == "ticket"@ {
        Some(SummaryFormat::Ticket)
    } else if s == "worktime"@ {
        Some(SummaryFormat::Worktime)
    } else {
        None
    }
}

impl SummaryFormat {
    /// The kind of report that `s` names.
    pub fn from_str(s: &str) -> (format: Result<SummaryFormat, ParseSummaryFormatError>)
        ensures
            match format_named(s@) {
                Some(f) => format == Ok::<SummaryFormat, ParseSummaryFormatError>(f),
                None => format is Err,
            },
    {
        if same_text(s, "short") {
            Ok(SummaryFormat::Short)
        } else if same_text(s, "long") {
            Ok(SummaryFormat::Long)
        } else if same_text(s, "status") {
            Ok(SummaryFormat::Status)
        } else if same_text(s, "tickets") {
            Ok(SummaryFormat::Tickets)
        } else if same_text(s, "table") {
            Ok(SummaryFormat::Table)
        } else if same_text(s, "activity") {
            Ok(SummaryFormat::Activity)
        } else if same_text(s, "ticket") {
            Ok(SummaryFormat::Ticket)
        } else if same_text(s, "worktime") {
            Ok(SummaryFormat::Worktime)
        } else {
            Err(ParseSummaryFormatError { _priv: () })
        }
    }
}

/// The short report of a summary.
pub open spec fn short_text(summary: Summary) -> Seq<char> {
    "start: "@ + time_text(summary.start@) + ", end: "@ + time_text(summary.end@) + ", breaks: "@
        + duration_text(summary.breaks@) + ", work time: "@ + duration_text(summary.work_time@)
        + ", distribute: "@ + duration_text(summary.distribute@)
}

/// The short report of a summary in one line: its start and end, and the
/// time of the breaks, of the work, and of what is to be spread.
pub fn short_report(summary: &Summary) -> (text: String)
    ensures
        text@ == short_text(*summary),
{
    let mut text = String::from_str("start: ");
    text.append(format_time(&summary.start).as_str());
    text.append(", end: ");
    text.append(format_time(&summary.end).as_str());
    text.append(", breaks: ");
    text.append(format_duration(&summary.breaks).as_str());
    text.append(", work time: ");
    text.append(format_duration(&summary.work_time).as_str());
    text.append(", distribute: ");
    text.append(format_duration(&summary.distribute).as_str());
    text
}

/// The place of an activity in a report: ordinary work comes first, then
/// what is to be spread over it, then the breaks.
pub open spec fn rank(name: Seq<char>) -> int {
    if break_name(name) {
        2
    } else if distributable_name(name) {
        1
    } else {
        0
    }
}

/// Whether the row at place `a` comes before the row at place `b` in a
/// report: by rank, within a rank the longer activity first, and of two
/// that are equally long the one that is first in the alphabet.
pub open spec fn shown_before(rows: Seq<(Seq<char>, int)>, a: int, b: int) -> bool {
    let (first, second) = (rows[a], rows[b]);
    ||| rank(first.0) < rank(second.0)
    ||| rank(first.0) == rank(second.0) && first.1 > second.1
    ||| rank(first.0) == rank(second.0) && first.1 == second.1 && a < b
}

/// Whether `order` lists places of `rows` in the order of a report, none
/// of them twice.
pub open spec fn is_report_order(rows: Seq<(Seq<char>, int)>, order: Seq<usize>) -> bool {
    &&& forall|i: int| 0 <= i < order.len() ==> 0 <= #[trigger] order[i] < rows.len()
    &&& forall|i: int, j: int|
        0 <= i < j < order.len() ==> shown_before(
            rows,
            #[trigger] order[i] as int,
            #[trigger] order[j] as int,
        )
}

/// The rank of an activity.
fn rank_of(name: &str) -> (r: u8)
    ensures
        r == rank(name@),
{
    if is_break(name) {
        2
    } else if is_distributable(name) {
        1
    } else {
        0
    }
}

/// The places of the activities in the order in which a report shows
/// them.
pub fn report_order(activities: &ActivityDurations) -> (order: Vec<usize>)
    ensures
        order.len() == rows(*activities).len(),
        is_report_order(rows(*activities), order@),
{
    let ghost all = rows(*activities);
    let n = activities.len();
    let mut order: Vec<usize> = Vec::new();
    let mut k: usize = 0;
    while k < n
        invariant
            k <= n,
            n == activities.list().len(),
            all == rows(*activities),
            order.len() == k,
            is_report_order(all, order@),
            forall|i: int| 0 <= i < order.len() ==> #[trigger] order[i] < k,
        decreases n - k,
    {
        let rank_k = rank_of(activities.name_at(k).as_str());
        let seconds_k: i64 = activities.value_at(k).0.secs;
        let mut at: usize = order.len();
        while at > 0
            invariant
                at <= order.len(),
                order.len() == k,
                k < n,
                n == activities.list().len(),
                all == rows(*activities),
                rank_k == rank(all[k as int].0),
                seconds_k == all[k as int].1,
                is_report_order(all, order@),
                forall|i: int| 0 <= i < order.len() ==> #[trigger] order[i] < k,
                forall|i: int|
                    at <= i < order.len() ==> shown_before(all, k as int, #[trigger] order[i] as int),
            ensures
                at > 0 ==> !(rank_k < rank(all[order[at - 1] as int].0) || (rank_k == rank(
                    all[order[at - 1] as int].0,
                ) && seconds_k > all[order[at - 1] as int].1)),
            decreases at,
        {
            let other = order[at - 1];
            let rank_other = rank_of(activities.name_at(other).as_str());
            let seconds_other: i64 = activities.value_at(other).0.secs;
            if rank_k < rank_other || (rank_k == rank_other && seconds_k > seconds_other) {
                at = at - 1;
            } else {
                break;
            }
        }
        proof {
            let grown = order@.insert(at as int, k);
            assert forall|i: int, j: int| 0 <= i < j < grown.len() implies shown_before(
                all,
                #[trigger] grown[i] as int,
                #[trigger] grown[j] as int,
            ) by {
                let a = if i < at { i } else { i - 1 };
                let b = if j < at { j } else { j - 1 };
                if i != at && j != at {
                    assert(shown_before(all, order@[a] as int, order@[b] as int));
                } else if i == at {
                    assert(shown_before(all, k as int, order@[b] as int));
                } else {
                    // the row at place `at - 1` does not come after the new one,
                    // and those before it come before it
                    assert(order@[at - 1] < k);
                    assert(shown_before(all, order@[at - 1] as int, k as int));
                    if a < at - 1 {
                        assert(shown_before(all, order@[a] as int, order@[at - 1] as int));
                    }
                }
            }
            assert forall|i: int| 0 <= i < grown.len() implies #[trigger] grown[i] < k + 1 by {
                if i < at {
                    assert(grown[i] == order@[i]);
                } else if i > at {
                    assert(grown[i] == order@[i - 1]);
                }
            }
        }
        order.insert(at, k);
        k += 1;
    }
    order
}

/// Whether an activity is shown without a share in a long report: it is
/// a break, or there to be spread, or shorter than the cutoff.
pub open spec fn is_hidden(row: (Seq<char>, int), cutoff: Option<int>) -> bool {
    ||| distributable_name(row.0)
    ||| break_name(row.0)
    ||| row.1 < match cutoff {
        Some(least) => least,
        None => 0,
    }
}

/// The tags of an activity in alphabetical order, each with its seconds.
pub open spec fn tag_rows(tags: NameMap<Duration>) -> Seq<(Seq<char>, int)> {
    tags.list().map_values(|entry: (Seq<char>, Duration)| (entry.0, entry.1@))
}

/// A tag as a report shows it: with its time in brackets, unless it gives
/// a shortname or took all of the time of its activity.
pub open spec fn tag_note(tag: (Seq<char>, int), own: int) -> Seq<char> {
    if begins_with(tag.0, '=') || tag.1 == own {
        tag.0
    } else {
        tag.0 + "("@ + duration_text(tag.1) + ")"@
    }
}

/// The tags of an activity as a report shows them, without those that say
/// how far back an activity was resumed from.
pub open spec fn tag_notes(tags: Seq<(Seq<char>, int)>, own: int) -> Seq<Seq<char>>
    decreases tags.len(),
{
    if tags.len() == 0 {
        seq![]
    } else if is_resume_tag(tags.last().0) {
        tag_notes(tags.drop_last(), own)
    } else {
        tag_notes(tags.drop_last(), own).push(tag_note(tags.last(), own))
    }
}

/// The line of a long report for an activity that is shown without a
/// share.
pub open spec fn hidden_line(row: (Seq<char>, int)) -> Seq<char> {
    "- "@ + padded(row.0, 16) + "("@ + duration_text(row.1) + ")"@
}

/// The line of a long report for an activity with its share and its tags.
pub open spec fn shown_line(row: (Seq<char>, int), part: int, notes: Seq<Seq<char>>) -> Seq<char> {
    "- "@ + padded(row.0, 16) + " "@ + duration_text(row.1) + " + "@ + duration_text(part) + " = "@
        + duration_text(row.1 + part) + "  "@ + joined(notes, ", "@)
}

/// The line of a long report for an activity.
pub open spec fn report_line(
    entry: (Seq<char>, (Duration, NameMap<Duration>)),
    cutoff: Option<int>,
    pool: int,
    denominator: int,
) -> Seq<char> {
    let row = (entry.0, (entry.1).0@);
    if is_hidden(row, cutoff) {
        hidden_line(row)
    } else {
        shown_line(row, share(pool, row.1, denominator), tag_notes(tag_rows((entry.1).1), row.1))
    }
}

/// Whether the figures of a long report can be held in durations: the
/// seconds of the activities that are too short, the pool, and for every
/// activity with a share that share and the adjusted seconds.
pub open spec fn report_fits(account: Account, cutoff: Option<int>) -> bool {
    &&& is_duration(cutoff_seconds(account.rows, cutoff))
    &&& is_duration(pool_of(account, cutoff, false))
    &&& forall|i: int|
        0 <= i < account.rows.len() && !is_hidden(#[trigger] account.rows[i], cutoff) ==> {
            let part = share(
                pool_of(account, cutoff, false),
                account.rows[i].1,
                denominator_of(account, cutoff),
            );
            is_duration(part) && is_duration(account.rows[i].1 + part)
        }
}

/// What a list of lines with their activities holds.
pub open spec fn line_views(lines: Seq<(String, String)>) -> Seq<(Seq<char>, Seq<char>)> {
    lines.map_values(|line: (String, String)| (line.0@, line.1@))
}

/// The lines of a long report for the activities at the places `order`,
/// each with the name of its activity.
pub open spec fn lines_in_order(summary: Summary, cutoff: Option<int>, order: Seq<usize>) -> Seq<
    (Seq<char>, Seq<char>),
> {
    Seq::new(
        order.len(),
        |i: int|
            (
                report_line(
                    summary.activities.list()[order[i] as int],
                    cutoff,
                    pool_of(account_of(summary), cutoff, false),
                    denominator_of(account_of(summary), cutoff),
                ),
                summary.activities.list()[order[i] as int].0,
            ),
    )
}

/// The tags of an activity as a report shows them, with commas between
/// them.
fn tag_report(tags: &NameMap<Duration>, own: &Duration) -> (text: String)
    ensures
        text@ == joined(tag_notes(tag_rows(*tags), own@), ", "@),
{
    let ghost all = tag_rows(*tags);
    let mut notes: Vec<String> = Vec::new();
    let n = tags.len();
    let mut i: usize = 0;
    proof {
        assert(all.take(0) =~= Seq::<(Seq<char>, int)>::empty());
        assert(texts(notes@) =~= Seq::<Seq<char>>::empty());
    }
    while i < n
        invariant
            i <= n,
            n == tags.list().len(),
            all == tag_rows(*tags),
            texts(notes@) == tag_notes(all.take(i as int), own@),
        decreases n - i,
    {
        proof {
            assert(all.take(i + 1).drop_last() =~= all.take(i as int));
            assert(all.take(i + 1).last() == all[i as int]);
        }
        let tag = tags.name_at(i);
        let seconds = tags.value_at(i);
        if !starts_with_text(tag.as_str(), "resume:") {
            let mut note = tag.clone();
            if !(starts_with_char(tag.as_str(), '=') || seconds.secs == own.secs) {
                note.append("(");
                note.append(format_duration(seconds).as_str());
                note.append(")");
            }
            proof {
                lemma_texts_push(notes@, note);
            }
            notes.push(note);
        }
        i += 1;
    }
    proof {
        assert(all.take(n as int) =~= all);
    }
    join_words(&notes, ", ")
}

/// The line of a long report for one activity, if durations can hold its
/// figures.
fn line_for(
    name: &String,
    entry: &(Duration, NameMap<Duration>),
    cutoff: &Option<Duration>,
    pool: i64,
    denominator: i128,
) -> (line: Option<String>)
    requires
        i128::MIN < denominator,
    ensures
        ({
            let row = (name@, entry.0@);
            let part = share(pool as int, row.1, denominator as int);
            &&& line is Some <==> is_hidden(row, seconds_of(*cutoff)) || (is_duration(part)
                && is_duration(row.1 + part))
            &&& line matches Some(text) ==> text@ == report_line(
                (name@, *entry),
                seconds_of(*cutoff),
                pool as int,
                denominator as int,
            )
        }),
{
    let own: i64 = entry.0.secs;
    let least: i64 = match cutoff {
        Some(d) => d.secs,
        None => 0,
    };
    let mut line = String::from_str("- ");
    push_padded(&mut line, name.as_str(), 16);
    if is_distributable(name.as_str()) || is_break(name.as_str()) || own < least {
        line.append("(");
        line.append(format_duration(&entry.0).as_str());
        line.append(")");
        return Some(line);
    }
    let part: i128 = share_of(pool, own, denominator);
    let total: i128 = own as i128 + part;
    if part < -0x8000_0000_0000_0000 || part > 0x7fff_ffff_ffff_ffff || total
        < -0x8000_0000_0000_0000 || total > 0x7fff_ffff_ffff_ffff {
        return None;
    }
    line.append(" ");
    line.append(format_duration(&entry.0).as_str());
    line.append(" + ");
    line.append(format_duration(&Duration::seconds(part as i64)).as_str());
    line.append(" = ");
    line.append(format_duration(&Duration::seconds(total as i64)).as_str());
    line.append("  ");
    line.append(tag_report(&entry.1, &entry.0).as_str());
    Some(line)
}

/// Returns the long report of a summary line by line, each line with the
/// name of its activity: ordinary work first, then what is to be spread,
/// then the breaks, and within each of these the longest activity first.
/// Returns nothing if a duration cannot hold one of the figures.
pub fn long_report_lines(summary: &Summary, cutoff: &Option<Duration>) -> (lines: Option<
    Vec<(String, String)>,
>)
    ensures
        lines is Some <==> report_fits(account_of(*summary), seconds_of(*cutoff)),
        lines matches Some(l) ==> exists|order: Seq<usize>|
            {
                &&& order.len() == rows(summary.activities).len()
                &&& is_report_order(rows(summary.activities), order)
                &&& line_views(l@) == #[trigger] lines_in_order(
                    *summary,
                    seconds_of(*cutoff),
                    order,
                )
            },
{
    let ghost account = account_of(*summary);
    let ghost limit = seconds_of(*cutoff);
    let cut: i64 = match cutoff_sum(&summary.activities, cutoff) {
        Some(d) => d.secs,
        None => {
            return None;
        },
    };
    let pool_wide: i128 = cut as i128 + summary.distribute.secs as i128;
    if pool_wide < -0x8000_0000_0000_0000 || pool_wide > 0x7fff_ffff_ffff_ffff {
        return None;
    }
    let pool: i64 = pool_wide as i64;
    let denominator: i128 = summary.work_time.secs as i128 - summary.distribute.secs as i128
        - cut as i128;
    let order = report_order(&summary.activities);
    let n = order.len();
    let mut lines: Vec<(String, String)> = Vec::new();
    let mut i: usize = 0;
    while i < n
        invariant
            i <= n,
            n == order.len(),
            n == summary.activities.list().len(),
            account == account_of(*summary),
            limit == seconds_of(*cutoff),
            is_report_order(account.rows, order@),
            pool == pool_of(account, limit, false),
            denominator == denominator_of(account, limit),
            i128::MIN < denominator,
            is_duration(cutoff_seconds(account.rows, limit)),
            lines.len() == i,
            forall|j: int|
                0 <= j < i ==> (#[trigger] line_views(lines@)[j]) == lines_in_order(
                    *summary,
                    limit,
                    order@,
                )[j],
            forall|j: int|
                0 <= j < i && !is_hidden(#[trigger] account.rows[order@[j] as int], limit) ==> {
                    let part = share(pool as int, account.rows[order@[j] as int].1, denominator as int);
                    is_duration(part) && is_duration(account.rows[order@[j] as int].1 + part)
                },
        decreases n - i,
    {
        let at = order[i];
        let name = summary.activities.name_at(at);
        let entry = summary.activities.value_at(at);
        match line_for(name, entry, cutoff, pool, denominator) {
            None => {
                proof {
                    assert(!is_hidden(account.rows[at as int], limit));
                }
                return None;
            },
            Some(line) => {
                let row = (line, name.clone());
                proof {
                    assert(line_views(lines@.push(row)) =~= line_views(lines@).push(
                        (row.0@, row.1@),
                    ));
                    assert(summary.activities.list()[at as int] == (name@, *entry));
                }
                lines.push(row);
            },
        }
        i += 1;
    }
    proof {
        assert(line_views(lines@) =~= lines_in_order(*summary, limit, order@));
        lemma_order_reaches_all(account.rows, order@);
        assert forall|p: int|
            0 <= p < account.rows.len() && !is_hidden(
                #[trigger] account.rows[p],
                limit,
            ) implies {
            let part = share(pool as int, account.rows[p].1, denominator as int);
            is_duration(part) && is_duration(account.rows[p].1 + part)
        } by {
            assert(reaches(order@, p));
            let j = choose|j: int| 0 <= j < order@.len() && #[trigger] order@[j] == p;
            assert(!is_hidden(account.rows[order@[j] as int], limit));
        }
    }
    Some(lines)
}

/// Whether the place `p` is among the places of `order`.
pub open spec fn reaches(order: Seq<usize>, p: int) -> bool {
    exists|i: int| 0 <= i < order.len() && #[trigger] order[i] == p
}

/// An order of a report that is as long as the list of rows holds every
/// place of the list: its places are all different, and as many different
/// places as the list has are all of them.
pub proof fn lemma_order_reaches_all(rows: Seq<(Seq<char>, int)>, order: Seq<usize>)
    requires
        is_report_order(rows, order),
        order.len() == rows.len(),
    ensures
        forall|p: int| 0 <= p < rows.len() ==> #[trigger] reaches(order, p),
{
    let places = vstd::set_lib::set_int_range(0, rows.len() as int);
    let reached = prefix_places(order, order.len() as int);
    lemma_distinct_places(rows, order, order.len() as int);
    vstd::set_lib::lemma_int_range(0, rows.len() as int);
    assert(reached.subset_of(places)) by {
        assert forall|p: int| reached.contains(p) implies places.contains(p) by {
            let i = choose|i: int| 0 <= i < order.len() && #[trigger] order[i] == p;
        }
    }
    vstd::set_lib::lemma_subset_equality(reached, places);
    assert forall|p: int| 0 <= p < rows.len() implies #[trigger] reaches(order, p) by {
        assert(places.contains(p));
        assert(reached.contains(p));
    }
}

/// The places that the first `upto` entries of an order hold.
spec fn prefix_places(order: Seq<usize>, upto: int) -> Set<int> {
    Set::new(|p: int| exists|i: int| 0 <= i < upto && #[trigger] order[i] == p)
}

/// The first `upto` entries of an order hold `upto` places.
proof fn lemma_distinct_places(rows: Seq<(Seq<char>, int)>, order: Seq<usize>, upto: int)
    requires
        is_report_order(rows, order),
        0 <= upto <= order.len(),
    ensures
        prefix_places(order, upto).finite(),
        prefix_places(order, upto).len() == upto,
    decreases upto,
{
    if upto == 0 {
        assert(prefix_places(order, 0) =~= Set::<int>::empty());
    } else {
        lemma_distinct_places(rows, order, upto - 1);
        let before = prefix_places(order, upto - 1);
        let last = order[upto - 1] as int;
        assert(!before.contains(last)) by {
            if before.contains(last) {
                let i = choose|i: int| 0 <= i < upto - 1 && #[trigger] order[i] == last;
                assert(shown_before(rows, order[i] as int, order[upto - 1] as int));
            }
        }
        assert(prefix_places(order, upto) =~= before.insert(last)) by {
            assert forall|p: int| prefix_places(order, upto).contains(p) implies before.insert(
                last,
            ).contains(p) by {
                let i = choose|i: int| 0 <= i < upto && #[trigger] order[i] == p;
                if i < upto - 1 {
                    assert(before.contains(p));
                }
            }
            assert forall|p: int| before.insert(last).contains(p) implies prefix_places(
                order,
                upto,
            ).contains(p) by {
                if p == last {
                    assert(order[upto - 1] == p);
                } else {
                    let i = choose|i: int| 0 <= i < upto - 1 && #[trigger] order[i] == p;
                    assert(order[i] == p);
                }
            }
        }
    }
}

/// A whole number in decimal, with a minus sign if it is negative.
pub open spec fn signed_decimal(n: int) -> Seq<char> {
    if n < 0 {
        seq!['-'] + decimal((-n) as nat)
    } else {
        decimal(n as nat)
    }
}

/// The status line: the activity that is going on with its shortname,
/// since when, for how long it has been recorded today, and the work time
/// and the time to be spread of the day.
pub open spec fn status_text(collected: CollectResult) -> Seq<char> {
    let shortname = match collected.final_shortname {
        Some(s) => " "@ + s@,
        None => Seq::empty(),
    };
    let recorded = if collected.summary@.activities.contains_key(collected.final_activity@) {
        collected.summary@.activities[collected.final_activity@].0
    } else {
        0
    };
    collected.final_activity@ + shortname + " since "@ + time_text(collected.final_start@) + " ("@
        + duration_text(recorded) + ") wt: "@ + duration_text(collected.summary.work_time@)
        + " dt: "@ + duration_text(collected.summary.distribute@)
}

/// The names of the activities of a summary in alphabetical order.
pub open spec fn names_of(activities: ActivityDurations) -> Seq<Seq<char>> {
    activities.list().map_values(|entry: (Seq<char>, (Duration, NameMap<Duration>))| entry.0)
}

/// The first parts of lines with their activities.
pub open spec fn first_parts(lines: Seq<(Seq<char>, Seq<char>)>) -> Seq<Seq<char>> {
    lines.map_values(|line: (Seq<char>, Seq<char>)| line.0)
}

/// Whether `lines` are the lines of the report of the kind `format` on
/// what was collected.
pub open spec fn is_report(
    lines: Seq<Seq<char>>,
    collect_result: Option<CollectResult>,
    format: SummaryFormat,
    cutoff: Option<int>,
) -> bool {
    match collect_result {
        None => lines == seq!["No activities found."@],
        Some(collected) => match format {
            SummaryFormat::Status => lines == seq![status_text(collected)],
            SummaryFormat::Tickets => lines == names_of(collected.summary.activities),
            SummaryFormat::Short => lines == seq![short_text(collected.summary)],
            SummaryFormat::Long => exists|order: Seq<usize>|
                {
                    &&& order.len() == rows(collected.summary.activities).len()
                    &&& is_report_order(rows(collected.summary.activities), order)
                    &&& lines == seq![short_text(collected.summary)] + first_parts(
                        #[trigger] lines_in_order(collected.summary, cutoff, order),
                    )
                },
            SummaryFormat::Activity => lines == seq![
                match collected.final_shortname {
                    Some(s) => s@,
                    None => collected.final_activity@,
                },
            ],
            SummaryFormat::Ticket => lines == seq![collected.final_activity@],
            SummaryFormat::Worktime => lines == seq![
                signed_decimal(Duration::toward_zero(collected.summary.work_time@, 60)),
            ],
            SummaryFormat::Table => lines == Seq::<Seq<char>>::empty(),
        },
    }
}

/// A whole number in decimal.
fn signed_decimal_text(n: i64) -> (text: String)
    ensures
        text@ == signed_decimal(n as int),
{
    let mut text = String::new();
    if n < 0 {
        text.push('-');
        let size: u64 = if n == i64::MIN {
            0x8000_0000_0000_0000
        } else {
            (-n) as u64
        };
        push_decimal(&mut text, size);
        proof {
            assert(Seq::<char>::empty().push('-') =~= seq!['-']);
        }
    } else {
        push_decimal(&mut text, n as u64);
        proof {
            assert(Seq::<char>::empty() + decimal(n as nat) =~= decimal(n as nat));
        }
    }
    text
}

/// The report of the kind `format` on what was collected, line by line.
/// A long report leaves out the activities that lasted less than `cutoff`.
/// Returns nothing if the report is a long one and a duration cannot hold
/// one of its figures. The kind `Table` is for several days and has no
/// lines here.
pub fn report(
    collect_result: &Option<CollectResult>,
    format: &SummaryFormat,
    cutoff: &Option<Duration>,
) -> (lines: Option<Vec<String>>)
    ensures
        lines is None <==> (collect_result matches Some(collected) && *format
            == SummaryFormat::Long && !report_fits(
            account_of(collected.summary),
            seconds_of(*cutoff),
        )),
        lines matches Some(l) ==> is_report(texts(l@), *collect_result, *format, seconds_of(*cutoff)),
{
    let mut lines: Vec<String> = Vec::new();
    let collected = match collect_result {
        None => {
            lines.push(String::from_str("No activities found."));
            proof {
                assert(texts(lines@) =~= seq!["No activities found."@]);
            }
            return Some(lines);
        },
        Some(collected) => collected,
    };
    let summary = &collected.summary;
    match format {
        SummaryFormat::Status => {
            let mut line = collected.final_activity.clone();
            match &collected.final_shortname {
                Some(shortname) => {
                    line.append(" ");
                    line.append(shortname.as_str());
                },
                None => {},
            }
            line.append(" since ");
            line.append(format_time(&collected.final_start).as_str());
            line.append(" (");
            let recorded = match summary.activities.get(collected.final_activity.as_str()) {
                Some(entry) => entry.0,
                None => Duration::zero(),
            };
            line.append(format_duration(&recorded).as_str());
            line.append(") wt: ");
            line.append(format_duration(&summary.work_time).as_str());
            line.append(" dt: ");
            line.append(format_duration(&summary.distribute).as_str());
            proof {
                assert(line@ =~= status_text(*collected));
            }
            lines.push(line);
            proof {
                assert(texts(lines@) =~= seq![status_text(*collected)]);
            }
        },
        SummaryFormat::Tickets => {
            let n = summary.activities.len();
            let mut i: usize = 0;
            while i < n
                invariant
                    i <= n,
                    n == summary.activities.list().len(),
                    texts(lines@) == names_of(summary.activities).take(i as int),
                decreases n - i,
            {
                let name = summary.activities.name_at(i).clone();
                proof {
                    lemma_texts_push(lines@, name);
                    assert(names_of(summary.activities).take(i as int).push(name@) =~= names_of(
                        summary.activities,
                    ).take(i + 1));
                }
                lines.push(name);
                i += 1;
            }
            proof {
                assert(names_of(summary.activities).take(n as int) =~= names_of(
                    summary.activities,
                ));
            }
        },
        SummaryFormat::Short => {
            lines.push(short_report(summary));
            proof {
                assert(texts(lines@) =~= seq![short_text(*summary)]);
            }
        },
        SummaryFormat::Long => {
            lines.push(short_report(summary));
            let long = match long_report_lines(summary, cutoff) {
                Some(long) => long,
                None => {
                    return None;
                },
            };
            let ghost order = choose|order: Seq<usize>|
                {
                    &&& order.len() == rows(summary.activities).len()
                    &&& is_report_order(rows(summary.activities), order)
                    &&& line_views(long@) == #[trigger] lines_in_order(
                        *summary,
                        seconds_of(*cutoff),
                        order,
                    )
                };
            let ghost all = first_parts(line_views(long@));
            let mut i: usize = 0;
            proof {
                assert(texts(lines@) =~= seq![short_text(*summary)] + all.take(0));
            }
            while i < long.len()
                invariant
                    i <= long.len(),
                    all == first_parts(line_views(long@)),
                    texts(lines@) == seq![short_text(*summary)] + all.take(i as int),
                decreases long.len() - i,
            {
                let line = long[i].0.clone();
                proof {
                    lemma_texts_push(lines@, line);
                    assert((seq![short_text(*summary)] + all.take(i as int)).push(line@) =~= seq![
                        short_text(*summary),
                    ] + all.take(i + 1));
                }
                lines.push(line);
                i += 1;
            }
            proof {
                assert(all.take(long.len() as int) =~= all);
            }
        },
        SummaryFormat::Activity => {
            let line = match &collected.final_shortname {
                Some(shortname) => shortname.clone(),
                None => collected.final_activity.clone(),
            };
            lines.push(line);
            proof {
                assert(texts(lines@) =~= seq![line@]);
            }
        },
        SummaryFormat::Ticket => {
            lines.push(collected.final_activity.clone());
            proof {
                assert(texts(lines@) =~= seq![collected.final_activity@]);
            }
        },
        SummaryFormat::Worktime => {
            let line = signed_decimal_text(summary.work_time.num_minutes());
            lines.push(line);
            proof {
                assert(texts(lines@) =~= seq![line@]);
            }
        },
        SummaryFormat::Table => {
            proof {
                assert(texts(lines@) =~= Seq::<Seq<char>>::empty());
            }
        },
    }
    Some(lines)
}

/// Two orders of a report for the same rows agree up to the place `upto`.
proof fn lemma_orders_agree_upto(
    rows: Seq<(Seq<char>, int)>,
    one: Seq<usize>,
    other: Seq<usize>,
    upto: int,
)
    requires
        is_report_order(rows, one),
        is_report_order(rows, other),
        one.len() == rows.len(),
        other.len() == rows.len(),
        0 <= upto <= rows.len(),
    ensures
        forall|i: int| 0 <= i < upto ==> one[i] == other[i],
    decreases upto,
{
    if upto > 0 {
        lemma_orders_agree_upto(rows, one, other, upto - 1);
        let at = upto - 1;
        let (x, y) = (one[at] as int, other[at] as int);
        if x != y {
            lemma_order_reaches_all(rows, one);
            lemma_order_reaches_all(rows, other);
            // each of the two places stands in the other order, and there
            // neither before this place nor at it
            assert(reaches(other, x));
            let k = choose|k: int| 0 <= k < other.len() && #[trigger] other[k] == x;
            if k < at {
                assert(shown_before(rows, one[k] as int, one[at] as int));
            }
            assert(k > at);
            assert(shown_before(rows, other[at] as int, other[k] as int));
            assert(reaches(one, y));
            let l = choose|l: int| 0 <= l < one.len() && #[trigger] one[l] == y;
            if l < at {
                assert(shown_before(rows, other[l] as int, other[at] as int));
            }
            assert(l > at);
            assert(shown_before(rows, one[at] as int, one[l] as int));
        }
    }
}

/// There is one order in which a report shows its rows.
pub proof fn lemma_report_order_is_unique(
    rows: Seq<(Seq<char>, int)>,
    one: Seq<usize>,
    other: Seq<usize>,
)
    requires
        is_report_order(rows, one),
        is_report_order(rows, other),
        one.len() == rows.len(),
        other.len() == rows.len(),
    ensures
        one == other,
{
    lemma_orders_agree_upto(rows, one, other, rows.len() as int);
    assert(one =~= other);
}

/// The number of the first day of the calendar, the first of January of
/// the year -262143, where the first of January of the year 1 is day 1.
pub const FIRST_DAY: i32 = -95_746_129;

/// The number of the last day of the calendar, the last of December of
/// the year 262142.
pub const LAST_DAY: i32 = 95_745_399;

/// How many days after a Monday a day is, if it is a day of the
/// calendar. The days are counted from the first of January of the year 1,
/// which is day 1 and a Monday.
pub open spec fn days_after_monday(day: int) -> Option<int> {
    if FIRST_DAY <= day <= LAST_DAY {
        Some((day - 1) % 7)
    } else {
        None
    }
}

/// `chrono::NaiveDate::from_num_days_from_ce_opt`, which gives the date
/// with a number if the calendar reaches that far, followed by its
/// `weekday().num_days_from_monday()`. The calendar is the Gregorian one
/// carried on to all years from -262143 to 262142, in which the week days
/// follow each other without a gap.
#[verifier::external_body]
fn weekday_from_monday(day: i32) -> (weekday: Option<u32>)
    ensures
        match days_after_monday(day as int) {
            Some(n) => weekday == Some(n as u32),
            None => weekday is None,
        },
{
    match chrono::NaiveDate::from_num_days_from_ce_opt(day) {
        Some(date) => Some(date.weekday().num_days_from_monday()),
        None => None,
    }
}

/// The days `first` to `first + more`, each with whether it is `today`.
pub open spec fn days_from(first: int, more: int, today: int) -> Seq<(int, bool)> {
    Seq::new((more + 1) as nat, |i: int| (first + i, first + i == today))
}

/// The last day to report on: the day asked for, or else today; or the
/// day before that if `yesterday`.
pub open spec fn base_day(today: int, date: Option<int>, yesterday: bool) -> int {
    let chosen = match date {
        Some(day) => day,
        None => today,
    };
    if yesterday {
        chosen - 1
    } else {
        chosen
    }
}

/// The days to report on, each with whether it is today: the last day to
/// report on; and if `week`, the days from the Monday before to that day.
/// Nothing if `week` and the calendar does not reach that far.
pub open spec fn days_to_report(today: int, date: Option<int>, yesterday: bool, week: bool) -> Option<
    Seq<(int, bool)>,
> {
    let base = base_day(today, date, yesterday);
    if !week {
        Some(days_from(base, 0, today))
    } else {
        match days_after_monday(base) {
            Some(offset) => Some(days_from(base - offset, offset, today)),
            None => None,
        }
    }
}

/// What a list of days holds.
pub open spec fn day_views(days: Seq<(i64, bool)>) -> Seq<(int, bool)> {
    days.map_values(|day: (i64, bool)| (day.0 as int, day.1))
}

/// The number of a day that may be missing.
pub open spec fn day_of(date: Option<i32>) -> Option<int> {
    match date {
        Some(day) => Some(day as int),
        None => None,
    }
}

/// The days to report on when the last of them is `offset` days after
/// the first: the days from then to the last day, each with whether it is
/// today.
pub fn days_until(
    today: i32,
    date: Option<i32>,
    yesterday: bool,
    offset: u32,
) -> (days: Vec<(i64, bool)>)
    ensures
        day_views(days@) == days_from(
            base_day(today as int, day_of(date), yesterday) - offset,
            offset as int,
            today as int,
        ),
{
    let chosen: i64 = match date {
        Some(day) => day as i64,
        None => today as i64,
    };
    let base: i64 = if yesterday {
        chosen - 1
    } else {
        chosen
    };
    let first: i64 = base - offset as i64;
    let ghost all = days_from(first as int, offset as int, today as int);
    let mut days: Vec<(i64, bool)> = Vec::new();
    let mut i: u32 = 0;
    proof {
        assert(day_views(days@) =~= all.take(0));
    }
    while i < offset
        invariant
            i <= offset,
            first == base - offset,
            -0x8000_0001 <= base <= 0x7fff_ffff,
            all == days_from(first as int, offset as int, today as int),
            day_views(days@) == all.take(i as int),
        decreases offset - i,
    {
        let day = (first + i as i64, first + i as i64 == today as i64);
        proof {
            assert(all[i as int] == (day.0 as int, day.1));
            assert(all.take(i + 1) =~= all.take(i as int).push(all[i as int]));
            assert(day_views(days@.push(day)) =~= day_views(days@).push((day.0 as int, day.1)));
        }
        days.push(day);
        i += 1;
    }
    let last = (base, base == today as i64);
    proof {
        assert(all[offset as int] == (last.0 as int, last.1));
        assert(all =~= all.take(offset as int).push(all[offset as int]));
        assert(day_views(days@.push(last)) =~= day_views(days@).push((last.0 as int, last.1)));
    }
    days.push(last);
    days
}

/// The days to report on, by their numbers, each with whether it is
/// today.
pub fn report_dates(today: i32, date: Option<i32>, yesterday: bool, week: bool) -> (days: Option<
    Vec<(i64, bool)>,
>)
    ensures
        match days_to_report(today as int, day_of(date), yesterday, week) {
            Some(list) => days matches Some(d) && day_views(d@) == list,
            None => days is None,
        },
{
    if !week {
        return Some(days_until(today, date, yesterday, 0));
    }
    let chosen: i32 = match date {
        Some(day) => day,
        None => today,
    };
    let base: i32 = if yesterday {
        if chosen == i32::MIN {
            return None;
        }
        chosen - 1
    } else {
        chosen
    };
    match weekday_from_monday(base) {
        Some(offset) => Some(days_until(today, date, yesterday, offset)),
        None => None,
    }
}

} // verus!
