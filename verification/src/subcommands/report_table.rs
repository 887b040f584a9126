//! The table of a week: the time of each activity day by day.

use crate::collector::Summary;
use crate::distribution::{
    account_of,
    adjusted_rows,
    distribution_fits,
    handle_cutoff_and_distribute,
    is_duration,
    row_views,
    seconds_of,
};
use crate::name_map::NameMap;
use crate::text::same_text;
use crate::time::Duration;
use vstd::prelude::*;

verus! {

/// The time of one activity on each day of a report, and on all of them
/// together.
#[derive(Debug, PartialEq, Eq)]
pub struct DailyActivity {
    /// For each day the time of the activity on that day, if it was shown
    /// on that day.
    pub durations: Vec<Option<Duration>>,
    pub total: Duration,
}

/// The seconds of the row with the name `name`, if there is one.
pub open spec fn seconds_in(rows: Seq<(Seq<char>, int)>, name: Seq<char>) -> Option<int>
    decreases rows.len(),
{
    if rows.len() == 0 {
        None
    } else if rows.last().0 == name {
        Some(rows.last().1)
    } else {
        seconds_in(rows.drop_last(), name)
    }
}

/// The adjusted seconds of each of the days `summaries`.
pub open spec fn adjusted_days(summaries: Seq<Summary>, cutoff: Option<int>, all: bool) -> Seq<
    Seq<(Seq<char>, int)>,
> {
    summaries.map_values(|summary: Summary| adjusted_rows(account_of(summary), cutoff, all))
}

/// The seconds of the activity `name` on each of the days.
pub open spec fn seconds_per_day(days: Seq<Seq<(Seq<char>, int)>>, name: Seq<char>) -> Seq<
    Option<int>,
> {
    days.map_values(|rows: Seq<(Seq<char>, int)>| seconds_in(rows, name))
}

/// The seconds that are there, together.
pub open spec fn sum_of(seconds: Seq<Option<int>>) -> int
    decreases seconds.len(),
{
    if seconds.len() == 0 {
        0
    } else {
        sum_of(seconds.drop_last()) + match seconds.last() {
            Some(s) => s,
            None => 0,
        }
    }
}

/// Whether the activity `name` is shown on one of the days.
pub open spec fn is_shown_on_a_day(days: Seq<Seq<(Seq<char>, int)>>, name: Seq<char>) -> bool {
    exists|d: int| 0 <= d < days.len() && #[trigger] seconds_in(days[d], name) is Some
}

/// The seconds that the durations hold.
pub open spec fn optional_seconds(durations: Seq<Option<Duration>>) -> Seq<Option<int>> {
    durations.map_values(
        |duration: Option<Duration>|
            match duration {
                Some(d) => Some(d@),
                None => None,
            },
    )
}

/// Whether `table` is the table of the days `days`: it has an entry for
/// each activity that is shown on one of the days, with its seconds on
/// each day and the sum of these.
pub open spec fn is_table_of(table: NameMap<DailyActivity>, days: Seq<Seq<(Seq<char>, int)>>) -> bool {
    &&& forall|name: Seq<char>| #[trigger]
        table@.contains_key(name) <==> is_shown_on_a_day(days, name)
    &&& forall|name: Seq<char>| #[trigger]
        table@.contains_key(name) ==> {
            &&& optional_seconds(table@[name].durations@) == seconds_per_day(days, name)
            &&& table@[name].total@ == sum_of(seconds_per_day(days, name))
        }
}

/// Whether a table of the days can be made: the distribution of each day
/// can be held in durations, and so can the sum for each activity.
pub open spec fn table_fits(summaries: Seq<Summary>, cutoff: Option<int>, all: bool) -> bool {
    &&& forall|d: int|
        0 <= d < summaries.len() ==> distribution_fits(
            account_of(#[trigger] summaries[d]),
            cutoff,
            all,
        )
    &&& forall|name: Seq<char>| #[trigger]
        is_shown_on_a_day(adjusted_days(summaries, cutoff, all), name) ==> is_duration(
            sum_of(seconds_per_day(adjusted_days(summaries, cutoff, all), name)),
        )
}

/// A row has the name `name` just if seconds are found under that name.
pub proof fn lemma_seconds_in(rows: Seq<(Seq<char>, int)>, name: Seq<char>)
    ensures
        seconds_in(rows, name) is Some <==> exists|i: int|
            0 <= i < rows.len() && (#[trigger] rows[i]).0 == name,
    decreases rows.len(),
{
    if rows.len() > 0 {
        lemma_seconds_in(rows.drop_last(), name);
        if rows.last().0 == name {
            assert(rows[rows.len() - 1].0 == name);
        } else if seconds_in(rows.drop_last(), name) is Some {
            let i = choose|i: int|
                0 <= i < rows.drop_last().len() && (#[trigger] rows.drop_last()[i]).0 == name;
            assert(rows[i].0 == name);
        } else {
            assert forall|i: int| 0 <= i < rows.len() implies (#[trigger] rows[i]).0 != name by {
                if i < rows.len() - 1 {
                    assert(rows.drop_last()[i] == rows[i]);
                }
            }
        }
    }
}

/// The duration of the row with the name `name`, if there is one.
fn duration_in(rows: &Vec<(String, Duration)>, name: &str) -> (found: Option<Duration>)
    ensures
        seconds_of(found) == seconds_in(row_views(rows@), name@),
{
    let mut i: usize = rows.len();
    proof {
        assert(row_views(rows@).take(i as int) =~= row_views(rows@));
    }
    while i > 0
        invariant
            i <= rows.len(),
            seconds_in(row_views(rows@).take(i as int), name@) == seconds_in(
                row_views(rows@),
                name@,
            ),
        decreases i,
    {
        proof {
            assert(row_views(rows@).take(i as int).drop_last() =~= row_views(rows@).take(i - 1));
            assert(row_views(rows@).take(i as int).last() == row_views(rows@)[i - 1]);
        }
        if same_text(rows[i - 1].0.as_str(), name) {
            return Some(rows[i - 1].1);
        }
        i = i - 1;
    }
    None
}

/// The adjusted rows of each day, if durations can hold them.
fn distribute_days(summaries: &Vec<Summary>, cutoff: Option<Duration>, all: bool) -> (days: Option<
    Vec<Vec<(String, Duration)>>,
>)
    ensures
        days is Some <==> forall|d: int|
            0 <= d < summaries.len() ==> distribution_fits(
                account_of(#[trigger] summaries[d]),
                seconds_of(cutoff),
                all,
            ),
        days matches Some(list) ==> list.len() == summaries.len() && forall|d: int|
            0 <= d < list.len() ==> row_views((#[trigger] list[d])@) == adjusted_rows(
                account_of(summaries[d]),
                seconds_of(cutoff),
                all,
            ),
{
    let mut days: Vec<Vec<(String, Duration)>> = Vec::new();
    let mut d: usize = 0;
    while d < summaries.len()
        invariant
            d <= summaries.len(),
            days.len() == d,
            forall|e: int|
                0 <= e < d ==> distribution_fits(
                    account_of(#[trigger] summaries[e]),
                    seconds_of(cutoff),
                    all,
                ),
            forall|e: int|
                0 <= e < d ==> row_views((#[trigger] days[e])@) == adjusted_rows(
                    account_of(summaries[e]),
                    seconds_of(cutoff),
                    all,
                ),
        decreases summaries.len() - d,
    {
        match handle_cutoff_and_distribute(&summaries[d], cutoff, all) {
            None => {
                return None;
            },
            Some(rows) => {
                days.push(rows);
            },
        }
        d += 1;
    }
    Some(days)
}

/// What the adjusted rows of the days hold.
pub open spec fn days_views(days: Seq<Vec<(String, Duration)>>) -> Seq<Seq<(Seq<char>, int)>> {
    days.map_values(|rows: Vec<(String, Duration)>| row_views(rows@))
}

/// Whether the activity `name` is shown on one of the first `upto` days,
/// or among the first `rows` rows of the day after these.
spec fn is_listed(days: Seq<Seq<(Seq<char>, int)>>, upto: int, rows: int, name: Seq<char>) -> bool {
    ||| exists|d: int| 0 <= d < upto && #[trigger] seconds_in(days[d], name) is Some
    ||| upto < days.len() && seconds_in(days[upto].take(rows), name) is Some
}

/// The names of all activities that are shown on one of the days.
fn names_shown(days: &Vec<Vec<(String, Duration)>>) -> (names: NameMap<bool>)
    ensures
        forall|name: Seq<char>| #[trigger]
            names@.contains_key(name) <==> is_shown_on_a_day(days_views(days@), name),
{
    let ghost all = days_views(days@);
    let mut names: NameMap<bool> = NameMap::new();
    let mut d: usize = 0;
    proof {
        assert forall|name: Seq<char>| #[trigger]
            names@.contains_key(name) <==> is_listed(all, 0, 0, name) by {
            if 0 < all.len() {
                assert(all[0].take(0) =~= Seq::<(Seq<char>, int)>::empty());
            }
        }
    }
    while d < days.len()
        invariant
            d <= days.len(),
            all == days_views(days@),
            forall|name: Seq<char>| #[trigger]
                names@.contains_key(name) <==> is_listed(all, d as int, 0, name),
        decreases days.len() - d,
    {
        let rows = &days[d];
        let mut i: usize = 0;
        while i < rows.len()
            invariant
                i <= rows.len(),
                d < days.len(),
                rows == &days[d as int],
                all == days_views(days@),
                forall|name: Seq<char>| #[trigger]
                    names@.contains_key(name) <==> is_listed(all, d as int, i as int, name),
            decreases rows.len() - i,
        {
            let ghost before = names@;
            names.insert(rows[i].0.clone(), true);
            proof {
                let added = rows@[i as int].0@;
                assert(all[d as int] == row_views(rows@));
                assert(all[d as int].take(i + 1).drop_last() =~= all[d as int].take(i as int));
                assert(all[d as int].take(i + 1).last().0 == added);
                assert forall|name: Seq<char>| #[trigger]
                    names@.contains_key(name) <==> is_listed(all, d as int, i + 1, name) by {
                    assert(before.contains_key(name) <==> is_listed(all, d as int, i as int, name));
                }
            }
            i += 1;
        }
        proof {
            assert(all[d as int].take(rows.len() as int) =~= all[d as int]);
            assert forall|name: Seq<char>| #[trigger]
                names@.contains_key(name) <==> is_listed(all, d + 1, 0, name) by {
                assert(names@.contains_key(name) <==> is_listed(
                    all,
                    d as int,
                    rows.len() as int,
                    name,
                ));
                if d + 1 < all.len() {
                    assert(all[d + 1].take(0) =~= Seq::<(Seq<char>, int)>::empty());
                }
                if seconds_in(all[d as int], name) is Some {
                    assert(is_listed(all, d + 1, 0, name));
                }
                if is_listed(all, d + 1, 0, name) {
                    let e = choose|e: int|
                        0 <= e < d + 1 && #[trigger] seconds_in(all[e], name) is Some;
                    if e < d {
                        assert(is_listed(all, d as int, rows.len() as int, name));
                    }
                }
            }
        }
        d += 1;
    }
    proof {
        assert forall|name: Seq<char>| #[trigger]
            names@.contains_key(name) <==> is_shown_on_a_day(all, name) by {
            assert(names@.contains_key(name) <==> is_listed(all, days.len() as int, 0, name));
        }
    }
    names
}

/// The time of the activity `name` on each day, and its sum if a duration
/// can hold it.
fn daily_activity(days: &Vec<Vec<(String, Duration)>>, name: &str) -> (daily: Option<DailyActivity>)
    ensures
        daily is Some <==> is_duration(sum_of(seconds_per_day(days_views(days@), name@))),
        daily matches Some(activity) ==> {
            &&& optional_seconds(activity.durations@) == seconds_per_day(days_views(days@), name@)
            &&& activity.total@ == sum_of(seconds_per_day(days_views(days@), name@))
        },
{
    let ghost all = seconds_per_day(days_views(days@), name@);
    let mut durations: Vec<Option<Duration>> = Vec::new();
    let mut total: i128 = 0;
    let mut d: usize = 0;
    proof {
        assert(all.take(0) =~= Seq::<Option<int>>::empty());
        assert(optional_seconds(durations@) =~= Seq::<Option<int>>::empty());
    }
    while d < days.len()
        invariant
            d <= days.len(),
            all == seconds_per_day(days_views(days@), name@),
            optional_seconds(durations@) == all.take(d as int),
            total == sum_of(all.take(d as int)),
            -0x8000_0000_0000_0000 * d <= total <= 0x8000_0000_0000_0000 * d,
        decreases days.len() - d,
    {
        let found = duration_in(&days[d], name);
        proof {
            assert(all.take(d + 1).drop_last() =~= all.take(d as int));
            assert(all.take(d + 1).last() == seconds_of(found));
            assert(optional_seconds(durations@.push(found)) =~= optional_seconds(durations@).push(
                seconds_of(found),
            ));
            assert(all.take(d as int).push(seconds_of(found)) =~= all.take(d + 1));
        }
        match found {
            Some(duration) => {
                total = total + duration.secs as i128;
            },
            None => {},
        }
        durations.push(found);
        d += 1;
    }
    proof {
        assert(all.take(days.len() as int) =~= all);
    }
    if total < -0x8000_0000_0000_0000 || total > 0x7fff_ffff_ffff_ffff {
        None
    } else {
        Some(DailyActivity { durations, total: Duration::seconds(total as i64) })
    }
}

/// The table of the days `summaries`: for each activity that is shown on
/// one of the days, after the time of the hidden activities has been
/// spread, its time on each day and on all days together. Nothing if a
/// duration cannot hold one of the figures.
pub fn daily_activities(summaries: &Vec<Summary>, cutoff: Option<Duration>, all: bool) -> (table:
    Option<NameMap<DailyActivity>>)
    ensures
        table is Some <==> table_fits(summaries@, seconds_of(cutoff), all),
        table matches Some(t) ==> is_table_of(
            t,
            adjusted_days(summaries@, seconds_of(cutoff), all),
        ),
{
    let ghost adjusted = adjusted_days(summaries@, seconds_of(cutoff), all);
    let days = match distribute_days(summaries, cutoff, all) {
        Some(days) => days,
        None => {
            return None;
        },
    };
    proof {
        assert(days_views(days@) =~= adjusted);
    }
    let names = names_shown(&days);
    let mut table: NameMap<DailyActivity> = NameMap::new();
    let n = names.len();
    let mut i: usize = 0;
    while i < n
        invariant
            i <= n,
            n == names.list().len(),
            names.well_formed(),
            adjusted == days_views(days@),
            adjusted == adjusted_days(summaries@, seconds_of(cutoff), all),
            forall|name: Seq<char>| #[trigger]
                names@.contains_key(name) <==> is_shown_on_a_day(adjusted, name),
            forall|name: Seq<char>| #[trigger]
                table@.contains_key(name) <==> exists|j: int|
                    0 <= j < i && (#[trigger] names.list()[j]).0 == name,
            forall|name: Seq<char>| #[trigger]
                table@.contains_key(name) ==> {
                    &&& optional_seconds(table@[name].durations@) == seconds_per_day(adjusted, name)
                    &&& table@[name].total@ == sum_of(seconds_per_day(adjusted, name))
                    &&& is_duration(sum_of(seconds_per_day(adjusted, name)))
                },
        decreases n - i,
    {
        let name = names.name_at(i);
        proof {
            crate::name_map::lemma_entry_in_map(names.list(), i as int);
        }
        match daily_activity(&days, name.as_str()) {
            None => {
                proof {
                    assert(names@.contains_key(name@));
                    assert(is_shown_on_a_day(adjusted, name@));
                }
                return None;
            },
            Some(daily) => {
                let ghost before = table@;
                table.insert(name.clone(), daily);
                proof {
                    assert forall|other: Seq<char>| #[trigger]
                        table@.contains_key(other) <==> exists|j: int|
                            0 <= j < i + 1 && (#[trigger] names.list()[j]).0 == other by {
                        if before.contains_key(other) {
                            let j = choose|j: int|
                                0 <= j < i && (#[trigger] names.list()[j]).0 == other;
                            assert(names.list()[j].0 == other);
                        }
                        if other == name@ {
                            assert(names.list()[i as int].0 == other);
                        }
                        if exists|j: int| 0 <= j < i + 1 && (#[trigger] names.list()[j]).0 == other {
                            let j = choose|j: int|
                                0 <= j < i + 1 && (#[trigger] names.list()[j]).0 == other;
                            if j < i {
                                assert(before.contains_key(other));
                            }
                        }
                    }
                }
            },
        }
        i += 1;
    }
    proof {
        assert forall|name: Seq<char>| #[trigger]
            table@.contains_key(name) <==> is_shown_on_a_day(adjusted, name) by {
            if names@.contains_key(name) {
                let j = crate::name_map::place_of_name(names.list(), name);
                assert(names.list()[j].0 == name);
            }
            if table@.contains_key(name) {
                let j = choose|j: int| 0 <= j < n && (#[trigger] names.list()[j]).0 == name;
                crate::name_map::lemma_entry_in_map(names.list(), j);
            }
        }
        assert forall|name: Seq<char>| #[trigger] is_shown_on_a_day(adjusted, name) implies is_duration(
            sum_of(seconds_per_day(adjusted, name)),
        ) by {
            assert(table@.contains_key(name));
        }
    }
    Some(table)
}

} // verus!
