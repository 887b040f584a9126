//! Folds the entries of a day's log into a summary: when the day began and
//! ended, how much of it was work and how much was breaks, and how much
//! time went to each activity and to each of its tags.

use crate::configfile::TTConfig;
use crate::error::{TTError, TTErrorKind};
use crate::log_parser::{
    block_of_line,
    break_name,
    distributable_name,
    is_distributable,
    complains,
    is_break,
    Block,
    BlockData,
    BlockDataView,
    BlockView,
};
use crate::utils::prefix_of;
use crate::distribution::rows;
use crate::name_map::{
    holds_name,
    is_put_into,
    is_taken_from,
    lemma_entry_in_map,
    place_of_name,
    NameMap,
};
use crate::text::{starts_with_char, texts};
use crate::time::{Duration, Time};
use vstd::prelude::*;

verus! {

/// The time spent under each tag of one activity.
pub type TagDurations = NameMap<Duration>;

/// For each activity the time spent on it, and of that time the part spent
/// under each of its tags.
pub type ActivityDurations = NameMap<(Duration, NameMap<Duration>)>;

/// The summary of a day.
#[derive(Debug, PartialEq, Eq)]
pub struct Summary {
    /// When the first activity began.
    pub start: Time,
    /// When the last activity that is accounted for ended.
    pub end: Time,
    /// The time spent on breaks.
    pub breaks: Duration,
    /// The time spent on everything else, that of `distribute` included.
    pub work_time: Duration,
    pub activities: ActivityDurations,
    /// The time spent on activities that are to be spread over the others.
    pub distribute: Duration,
}

/// What a `Summary` holds: times in seconds since midnight, durations in
/// seconds.
pub struct SummaryView {
    pub start: int,
    pub end: int,
    pub breaks: int,
    pub work_time: int,
    pub activities: Map<Seq<char>, (int, Map<Seq<char>, int>)>,
    pub distribute: int,
}

/// The seconds under each tag.
pub open spec fn tag_seconds(tags: NameMap<Duration>) -> Map<Seq<char>, int> {
    tags@.map_values(|d: Duration| d@)
}

/// The seconds of one activity and under each of its tags.
pub open spec fn entry_seconds(entry: (Duration, NameMap<Duration>)) -> (int, Map<Seq<char>, int>) {
    (entry.0@, tag_seconds(entry.1))
}

/// The seconds of each activity and under each of its tags.
pub open spec fn activity_seconds(activities: ActivityDurations) -> Map<
    Seq<char>,
    (int, Map<Seq<char>, int>),
> {
    activities@.map_values(|entry: (Duration, NameMap<Duration>)| entry_seconds(entry))
}

impl View for Summary {
    type V = SummaryView;

    open spec fn view(&self) -> SummaryView {
        SummaryView {
            start: self.start@,
            end: self.end@,
            breaks: self.breaks@,
            work_time: self.work_time@,
            activities: activity_seconds(self.activities),
            distribute: self.distribute@,
        }
    }
}

/// The seconds under each tag after an activity with the tags `tags` has
/// gone on for `duration` more: each of these tags has that much more, a
/// tag that was not there before has just that much, and a tag that is
/// named twice counts once.
pub open spec fn tags_after(before: Map<Seq<char>, int>, tags: Seq<Seq<char>>, duration: int) -> Map<
    Seq<char>,
    int,
> {
    Map::new(
        |tag: Seq<char>| before.contains_key(tag) || tags.contains(tag),
        |tag: Seq<char>|
            (if before.contains_key(tag) {
                before[tag]
            } else {
                0
            }) + (if tags.contains(tag) {
                duration
            } else {
                0
            }),
    )
}

/// The entry of the activity of `block` after it has gone on for
/// `duration` more.
pub open spec fn entry_after(
    activities: Map<Seq<char>, (int, Map<Seq<char>, int>)>,
    block: BlockDataView,
    duration: int,
) -> (int, Map<Seq<char>, int>) {
    if activities.contains_key(block.activity) {
        let (total, tags) = activities[block.activity];
        (total + duration, tags_after(tags, block.tags, duration))
    } else {
        (duration, tags_after(Map::empty(), block.tags, duration))
    }
}

/// The summary after the activity `current`, which was going on, has ended
/// at `end`.
pub open spec fn closed_at(summary: SummaryView, current: BlockDataView, end: int) -> SummaryView {
    let duration = end - current.start;
    SummaryView {
        start: summary.start,
        end,
        breaks: if break_name(current.activity) {
            summary.breaks + duration
        } else {
            summary.breaks
        },
        work_time: if break_name(current.activity) {
            summary.work_time
        } else {
            summary.work_time + duration
        },
        activities: summary.activities.insert(
            current.activity,
            entry_after(summary.activities, current, duration),
        ),
        distribute: if current.distribute {
            summary.distribute + duration
        } else {
            summary.distribute
        },
    }
}

/// The seconds under each tag after each has grown by `diff`.
pub open spec fn tags_moved(tags: Map<Seq<char>, int>, diff: int) -> Map<Seq<char>, int> {
    tags.map_values(|seconds: int| seconds + diff)
}

/// An entry whose activity went on for `diff` longer than was recorded:
/// its total and the time under every one of its tags grow by `diff`.
pub open spec fn entry_moved(entry: (int, Map<Seq<char>, int>), diff: int) -> (
    int,
    Map<Seq<char>, int>,
) {
    (entry.0 + diff, tags_moved(entry.1, diff))
}

/// The summary after the start of the activity that is going on, and with
/// it the end of the one before, turned out to be `to`, which is `diff`
/// later than was recorded. `previous` is the activity before, if any.
pub open spec fn moved_to(
    summary: SummaryView,
    previous: Option<BlockDataView>,
    to: int,
    diff: int,
) -> SummaryView {
    match previous {
        None => SummaryView { start: to, end: to, ..summary },
        Some(before) => SummaryView {
            start: summary.start,
            end: to,
            breaks: if break_name(before.activity) {
                summary.breaks + diff
            } else {
                summary.breaks
            },
            work_time: if break_name(before.activity) {
                summary.work_time
            } else {
                summary.work_time + diff
            },
            activities: summary.activities.insert(
                before.activity,
                entry_moved(summary.activities[before.activity], diff),
            ),
            distribute: if before.distribute {
                summary.distribute + diff
            } else {
                summary.distribute
            },
        },
    }
}

/// What a collector holds.
pub enum CollectorView {
    /// No activity has begun yet.
    Empty,
    /// An activity is going on.
    Open {
        /// The summary of all that has ended.
        summary: SummaryView,
        /// The activity that is going on.
        current: BlockDataView,
        /// The activity that ended last.
        previous: Option<BlockDataView>,
    },
}

/// The summary with which a day begins at `start`.
pub open spec fn summary_at(start: int) -> SummaryView {
    SummaryView {
        start,
        end: start,
        breaks: 0,
        work_time: 0,
        activities: Map::empty(),
        distribute: 0,
    }
}

/// What a collector holds after one more entry of the log.
pub open spec fn step(state: CollectorView, event: BlockView) -> CollectorView {
    match state {
        CollectorView::Empty => match event {
            BlockView::Normal(block) => CollectorView::Open {
                summary: summary_at(block.start),
                current: block,
                previous: None,
            },
            _ => CollectorView::Empty,
        },
        CollectorView::Open { summary, current, previous } => match event {
            BlockView::Comment => state,
            BlockView::Correction(time) => CollectorView::Open {
                summary: moved_to(summary, previous, time, time - current.start),
                current: BlockDataView { start: time, ..current },
                previous,
            },
            BlockView::Really(block) => CollectorView::Open {
                summary,
                current: BlockDataView { start: current.start, ..block },
                previous,
            },
            BlockView::Normal(block) => CollectorView::Open {
                summary: closed_at(summary, current, block.start),
                current: block,
                previous: Some(current),
            },
        },
    }
}

/// Whether an entry can follow on what a collector holds: an activity
/// cannot begin before the one that is going on.
pub open spec fn admits(state: CollectorView, event: BlockView) -> bool {
    match (state, event) {
        (CollectorView::Open { current, .. }, BlockView::Normal(block)) => block.start
            >= current.start,
        _ => true,
    }
}

/// Whether `x` is at most `bound` in size.
pub open spec fn within(x: int, bound: int) -> bool {
    -bound <= x <= bound
}

/// Whether the seconds under every tag are at most `bound` in size.
pub open spec fn tags_within(tags: Map<Seq<char>, int>, bound: int) -> bool {
    forall|tag: Seq<char>| tags.contains_key(tag) ==> within(#[trigger] tags[tag], bound)
}

/// Whether every duration in the summary is at most `bound` seconds in
/// size.
pub open spec fn durations_within(summary: SummaryView, bound: int) -> bool {
    &&& within(summary.breaks, bound)
    &&& within(summary.work_time, bound)
    &&& within(summary.distribute, bound)
    &&& forall|activity: Seq<char>| #[trigger]
        summary.activities.contains_key(activity) ==> within(summary.activities[activity].0, bound)
            && tags_within(summary.activities[activity].1, bound)
}

/// The kinds of activities that a summary has totals for.
pub enum Kind {
    /// A break, or the end of the day.
    Break,
    /// Anything else.
    Work,
    /// Work that is there to be spread over the other work.
    Spread,
    /// Work that is not.
    Plain,
}

/// Whether an activity of this name is of the kind.
pub open spec fn is_of_kind(name: Seq<char>, kind: Kind) -> bool {
    match kind {
        Kind::Break => break_name(name),
        Kind::Work => !break_name(name),
        Kind::Spread => !break_name(name) && distributable_name(name),
        Kind::Plain => !break_name(name) && !distributable_name(name),
    }
}

/// The seconds of an activity if it is of the kind, and nothing if not.
pub open spec fn seconds_if(row: (Seq<char>, int), kind: Kind) -> int {
    if is_of_kind(row.0, kind) {
        row.1
    } else {
        0
    }
}

/// The seconds of all activities of a kind together.
pub open spec fn seconds_of_kind(rows: Seq<(Seq<char>, int)>, kind: Kind) -> int
    decreases rows.len(),
{
    if rows.len() == 0 {
        0
    } else {
        seconds_of_kind(rows.drop_last(), kind) + seconds_if(rows.last(), kind)
    }
}

/// Whether the totals of a summary are those of its activities: the
/// breaks are the time of the activities that are breaks, and the work
/// time is the time of all others.
pub open spec fn is_accounted(summary: Summary) -> bool {
    &&& summary.breaks@ == seconds_of_kind(rows(summary.activities), Kind::Break)
    &&& summary.work_time@ == seconds_of_kind(rows(summary.activities), Kind::Work)
}

/// Whether the time to be spread of a summary is the time of the
/// activities that are there to be spread.
pub open spec fn is_spread_accounted(summary: Summary) -> bool {
    summary.distribute@ == seconds_of_kind(rows(summary.activities), Kind::Spread)
}

/// Whether an activity is marked to be spread just if its name says so.
pub open spec fn is_marked_by_name(block: BlockDataView) -> bool {
    block.distribute == distributable_name(block.activity)
}

/// Whether an entry marks its activity, if it has one, to be spread just
/// if the name of the activity says so.
pub open spec fn marks_by_name(event: BlockView) -> bool {
    match event {
        BlockView::Normal(block) => is_marked_by_name(block),
        BlockView::Really(block) => is_marked_by_name(block),
        _ => true,
    }
}

/// What is there to be spread is no break.
pub proof fn lemma_spread_is_no_break(name: Seq<char>)
    requires
        distributable_name(name),
    ensures
        !break_name(name),
{
    reveal_strlit("break");
    reveal_strlit("end");
}

/// A row more adds its seconds.
pub proof fn lemma_seconds_with_row(
    rows: Seq<(Seq<char>, int)>,
    at: int,
    row: (Seq<char>, int),
    kind: Kind,
)
    requires
        0 <= at <= rows.len(),
    ensures
        seconds_of_kind(rows.insert(at, row), kind) == seconds_of_kind(rows, kind) + seconds_if(
            row,
            kind,
        ),
    decreases rows.len(),
{
    let grown = rows.insert(at, row);
    if at == rows.len() {
        assert(grown.drop_last() =~= rows);
    } else {
        assert(grown.drop_last() =~= rows.drop_last().insert(at, row));
        assert(grown.last() == rows.last());
        lemma_seconds_with_row(rows.drop_last(), at, row, kind);
    }
}

/// A row less takes its seconds away.
pub proof fn lemma_seconds_without_row(rows: Seq<(Seq<char>, int)>, at: int, kind: Kind)
    requires
        0 <= at < rows.len(),
    ensures
        seconds_of_kind(rows.remove(at), kind) == seconds_of_kind(rows, kind) - seconds_if(
            rows[at],
            kind,
        ),
{
    let fewer = rows.remove(at);
    assert(fewer.insert(at, rows[at]) =~= rows);
    lemma_seconds_with_row(fewer, at, rows[at], kind);
}

/// The seconds of the activities after one of them has been taken out.
proof fn lemma_seconds_after_taking(
    before: ActivityDurations,
    after: ActivityDurations,
    name: Seq<char>,
    kind: Kind,
)
    requires
        is_taken_from(after.list(), before.list(), name),
    ensures
        seconds_of_kind(rows(after), kind) == seconds_of_kind(rows(before), kind) - if before@.contains_key(
            name,
        ) {
            seconds_if((name, before@[name].0@), kind)
        } else {
            0
        },
{
    if holds_name(before.list(), name) {
        let at = place_of_name(before.list(), name);
        assert(rows(after) =~= rows(before).remove(at));
        lemma_seconds_without_row(rows(before), at, kind);
    } else {
        assert(rows(after) =~= rows(before));
    }
}

/// The seconds of the activities after one has been put in that was not
/// there.
proof fn lemma_seconds_after_putting(
    before: ActivityDurations,
    after: ActivityDurations,
    name: Seq<char>,
    value: (Duration, NameMap<Duration>),
    kind: Kind,
)
    requires
        is_put_into(after.list(), before.list(), name, value),
        !before@.contains_key(name),
    ensures
        seconds_of_kind(rows(after), kind) == seconds_of_kind(rows(before), kind) + seconds_if(
            (name, value.0@),
            kind,
        ),
{
    let at = choose|at: int|
        0 <= at <= before.list().len() && after.list() == #[trigger] before.list().insert(
            at,
            (name, value),
        );
    assert(rows(after) =~= rows(before).insert(at, (name, value.0@)));
    lemma_seconds_with_row(rows(before), at, (name, value.0@), kind);
}

/// Whether the name at place `i` also stands at an earlier place.
fn occurs_before(names: &Vec<String>, i: usize) -> (found: bool)
    requires
        i < names.len(),
    ensures
        found == texts(names@).take(i as int).contains(names@[i as int]@),
{
    let mut j: usize = 0;
    while j < i
        invariant
            j <= i < names.len(),
            !texts(names@).take(j as int).contains(names@[i as int]@),
        decreases i - j,
    {
        if crate::text::same_text(names[j].as_str(), names[i].as_str()) {
            proof {
                assert(texts(names@).take(i as int)[j as int] == names@[i as int]@);
            }
            return true;
        }
        proof {
            let shorter = texts(names@).take(j as int);
            let longer = texts(names@).take(j + 1);
            assert forall|k: int| 0 <= k < longer.len() implies longer[k] != names@[i as int]@ by {
                if k < j {
                    assert(shorter[k] == longer[k]);
                }
            }
        }
        j += 1;
    }
    false
}

/// Adds `duration` under each of the tags `names`, once for each tag.
fn add_under_tags(
    tags: &mut NameMap<Duration>,
    names: &Vec<String>,
    duration: Duration,
    Ghost(bound): Ghost<int>,
)
    requires
        tags_within(tag_seconds(*old(tags)), bound),
        within(duration@, 86_400),
        0 <= bound,
        bound + 86_400 <= i64::MAX,
    ensures
        tag_seconds(*final(tags)) == tags_after(tag_seconds(*old(tags)), texts(names@), duration@),
        tags_within(tag_seconds(*final(tags)), bound + 86_400),
{
    let ghost before = tag_seconds(*tags);
    let ghost all = texts(names@);
    proof {
        assert(all.take(0) =~= Seq::<Seq<char>>::empty());
        assert(tag_seconds(*tags) =~= tags_after(before, all.take(0), duration@));
    }
    let mut i: usize = 0;
    while i < names.len()
        invariant
            i <= names.len(),
            all == texts(names@),
            tags_within(before, bound),
            within(duration@, 86_400),
            0 <= bound,
            bound + 86_400 <= i64::MAX,
            tag_seconds(*tags) == tags_after(before, all.take(i as int), duration@),
        decreases names.len() - i,
    {
        let ghost name = names@[i as int]@;
        let ghost done = all.take(i as int);
        let ghost next = all.take(i + 1);
        proof {
            assert(next =~= done.push(name));
            assert forall|tag: Seq<char>| next.contains(tag) <==> done.contains(tag) || tag
                == name by {
                if done.contains(tag) {
                    let k = choose|k: int| 0 <= k < done.len() && done[k] == tag;
                    assert(next[k] == tag);
                }
                if tag == name {
                    assert(next[i as int] == tag);
                }
            }
        }
        if occurs_before(names, i) {
            proof {
                assert(tags_after(before, next, duration@) =~= tags_after(
                    before,
                    done,
                    duration@,
                ));
            }
        } else {
            let ghost current = tags@;
            let ghost mid = tag_seconds(*tags);
            let seconds: i64 = match tags.get(names[i].as_str()) {
                Some(d) => d.secs,
                None => 0,
            };
            proof {
                if current.contains_key(name) {
                    assert(tag_seconds(*tags).contains_key(name));
                    assert(tag_seconds(*tags)[name] == seconds);
                    assert(before.contains_key(name));
                    assert(seconds == before[name]);
                } else {
                    assert(!tag_seconds(*tags).contains_key(name));
                }
            }
            tags.insert(names[i].clone(), Duration::seconds(seconds + duration.secs));
            proof {
                assert(tags@ == current.insert(name, Duration { secs: (seconds + duration.secs) as i64 }));
                assert(tag_seconds(*tags) =~= mid.insert(name, seconds + duration@));
                assert(!done.contains(name));
                assert(mid.insert(name, seconds + duration@) =~= tags_after(
                    before,
                    next,
                    duration@,
                ));
            }
        }
        i += 1;
    }
    proof {
        assert(all.take(names.len() as int) =~= all);
    }
}

/// Adds `diff` to the time under every tag.
fn move_tags(tags: &mut NameMap<Duration>, diff: Duration, Ghost(bound): Ghost<int>)
    requires
        tags_within(tag_seconds(*old(tags)), bound),
        within(diff@, 86_400),
        0 <= bound,
        bound + 86_400 <= i64::MAX,
    ensures
        tag_seconds(*final(tags)) == tags_moved(tag_seconds(*old(tags)), diff@),
        tags_within(tag_seconds(*final(tags)), bound + 86_400),
{
    let ghost before = tags.list();
    let ghost before_map = tags@;
    let n = tags.len();
    let mut i: usize = 0;
    while i < n
        invariant
            i <= n,
            n == before.len(),
            tags.list().len() == n,
            crate::name_map::ascending(before),
            before_map == crate::name_map::as_map(before),
            tags_within(before_map.map_values(|d: Duration| d@), bound),
            within(diff@, 86_400),
            0 <= bound,
            bound + 86_400 <= i64::MAX,
            forall|j: int| 0 <= j < n ==> (#[trigger] tags.list()[j]).0 == before[j].0,
            forall|j: int| 0 <= j < i ==> (#[trigger] tags.list()[j]).1@ == before[j].1@ + diff@,
            forall|j: int| i <= j < n ==> (#[trigger] tags.list()[j]).1 == before[j].1,
        decreases n - i,
    {
        let seconds: i64 = tags.value_at(i).secs;
        proof {
            lemma_entry_in_map(before, i as int);
            assert(before_map.map_values(|d: Duration| d@).contains_key(before[i as int].0));
            assert(within(before_map.map_values(|d: Duration| d@)[before[i as int].0], bound));
        }
        tags.set_value_at(i, Duration::seconds(seconds + diff.secs));
        i += 1;
    }
    proof {
        let after = tags.list();
        let moved = tags_moved(before_map.map_values(|d: Duration| d@), diff@);
        assert forall|tag: Seq<char>| #[trigger]
            tag_seconds(*tags).contains_key(tag) <==> moved.contains_key(tag) by {
            if crate::name_map::holds_name(after, tag) {
                let j = crate::name_map::place_of_name(after, tag);
                assert(before[j].0 == tag);
            }
            if crate::name_map::holds_name(before, tag) {
                let j = crate::name_map::place_of_name(before, tag);
                assert(after[j].0 == tag);
            }
        }
        assert forall|tag: Seq<char>| #[trigger] moved.contains_key(tag) implies tag_seconds(
            *tags,
        )[tag] == moved[tag] && within(moved[tag], bound + 86_400) by {
            let j = crate::name_map::place_of_name(before, tag);
            assert(after[j].0 == tag);
            lemma_entry_in_map(before, j);
            lemma_entry_in_map(after, j);
        }
        assert(tag_seconds(*tags) =~= moved);
    }
}

/// Accounts for the activity `current`, which ends at `end`.
fn close_activity(
    summary: &mut Summary,
    current: &BlockData,
    end: Time,
    Ghost(bound): Ghost<int>,
)
    requires
        durations_within(old(summary)@, bound),
        is_accounted(*old(summary)),
        0 <= bound,
        bound + 86_400 <= i64::MAX,
    ensures
        final(summary)@ == closed_at(old(summary)@, current@, end@),
        durations_within(final(summary)@, bound + 86_400),
        is_accounted(*final(summary)),
        is_spread_accounted(*old(summary)) && is_marked_by_name(current@) ==> is_spread_accounted(
            *final(summary),
        ),
{
    let ghost before = summary@;
    let ghost names = summary.activities@;
    let ghost name = current.activity@;
    let ghost first = summary.activities;
    let duration = end.signed_duration_since(&current.start);
    summary.end = end;
    if is_break(current.activity.as_str()) {
        summary.breaks = Duration::seconds(summary.breaks.secs + duration.secs);
    } else {
        summary.work_time = Duration::seconds(summary.work_time.secs + duration.secs);
    }
    if current.distribute {
        summary.distribute = Duration::seconds(summary.distribute.secs + duration.secs);
    }
    let (total, mut tags) = match summary.activities.remove(current.activity.as_str()) {
        Some(entry) => entry,
        None => (Duration::zero(), NameMap::new()),
    };
    let ghost second = summary.activities;
    proof {
        if distributable_name(name) {
            lemma_spread_is_no_break(name);
        }
        lemma_seconds_after_taking(first, second, name, Kind::Break);
        lemma_seconds_after_taking(first, second, name, Kind::Work);
        lemma_seconds_after_taking(first, second, name, Kind::Spread);
        if names.contains_key(name) {
            assert(before.activities.contains_key(name));
            assert(before.activities[name] == entry_seconds((total, tags)));
        } else {
            assert(!before.activities.contains_key(name));
            assert(tag_seconds(tags) =~= Map::<Seq<char>, int>::empty());
        }
    }
    add_under_tags(&mut tags, &current.tags, duration, Ghost(bound));
    let entry = (Duration::seconds(total.secs + duration.secs), tags);
    summary.activities.insert(current.activity.clone(), entry);
    proof {
        lemma_seconds_after_putting(second, summary.activities, name, entry, Kind::Break);
        lemma_seconds_after_putting(second, summary.activities, name, entry, Kind::Work);
        lemma_seconds_after_putting(second, summary.activities, name, entry, Kind::Spread);
        assert(summary.activities@ =~= names.insert(name, entry));
        assert(activity_seconds(summary.activities) =~= before.activities.insert(
            name,
            entry_seconds(entry),
        ));
        assert forall|activity: Seq<char>| #[trigger]
            summary@.activities.contains_key(activity) implies within(
            summary@.activities[activity].0,
            bound + 86_400,
        ) && tags_within(summary@.activities[activity].1, bound + 86_400) by {
            if activity != name {
                assert(before.activities.contains_key(activity));
            }
        }
    }
}

/// Accounts for the activity `previous` having gone on until `to`, which
/// is `diff` later than was recorded.
fn move_activity(
    summary: &mut Summary,
    previous: &BlockData,
    to: Time,
    diff: Duration,
    Ghost(bound): Ghost<int>,
)
    requires
        old(summary)@.activities.contains_key(previous.activity@),
        durations_within(old(summary)@, bound),
        is_accounted(*old(summary)),
        within(diff@, 86_400),
        0 <= bound,
        bound + 86_400 <= i64::MAX,
    ensures
        final(summary)@ == moved_to(old(summary)@, Some(previous@), to@, diff@),
        durations_within(final(summary)@, bound + 86_400),
        is_accounted(*final(summary)),
        is_spread_accounted(*old(summary)) && is_marked_by_name(previous@) ==> is_spread_accounted(
            *final(summary),
        ),
{
    let ghost before = summary@;
    let ghost names = summary.activities@;
    let ghost name = previous.activity@;
    let ghost first = summary.activities;
    summary.end = to;
    if is_break(previous.activity.as_str()) {
        summary.breaks = Duration::seconds(summary.breaks.secs + diff.secs);
    } else {
        summary.work_time = Duration::seconds(summary.work_time.secs + diff.secs);
    }
    if previous.distribute {
        summary.distribute = Duration::seconds(summary.distribute.secs + diff.secs);
    }
    proof {
        assert(names.contains_key(name));
    }
    match summary.activities.remove(previous.activity.as_str()) {
        Some((total, mut tags)) => {
            let ghost second = summary.activities;
            proof {
                if distributable_name(name) {
                    lemma_spread_is_no_break(name);
                }
                lemma_seconds_after_taking(first, second, name, Kind::Break);
                lemma_seconds_after_taking(first, second, name, Kind::Work);
        lemma_seconds_after_taking(first, second, name, Kind::Spread);
                assert(before.activities[name] == entry_seconds((total, tags)));
            }
            move_tags(&mut tags, diff, Ghost(bound));
            let entry = (Duration::seconds(total.secs + diff.secs), tags);
            summary.activities.insert(previous.activity.clone(), entry);
            proof {
                lemma_seconds_after_putting(second, summary.activities, name, entry, Kind::Break);
                lemma_seconds_after_putting(second, summary.activities, name, entry, Kind::Work);
        lemma_seconds_after_putting(second, summary.activities, name, entry, Kind::Spread);
                assert(summary.activities@ =~= names.insert(name, entry));
                assert(activity_seconds(summary.activities) =~= before.activities.insert(
                    name,
                    entry_seconds(entry),
                ));
                assert forall|activity: Seq<char>| #[trigger]
                    summary@.activities.contains_key(activity) implies within(
                    summary@.activities[activity].0,
                    bound + 86_400,
                ) && tags_within(summary@.activities[activity].1, bound + 86_400) by {
                    if activity != name {
                        assert(before.activities.contains_key(activity));
                    }
                }
            }
        },
        None => {},
    }
}

/// Whether the collector's books are in order: the summary ends where the
/// activity that is going on begins, every second between its start and
/// its end is either work or a break, the activity that ended last has an
/// entry, and while none has ended no time has passed.
pub open spec fn sound(state: CollectorView) -> bool {
    match state {
        CollectorView::Empty => true,
        CollectorView::Open { summary, current, previous } => {
            &&& summary.end == current.start
            &&& summary.work_time + summary.breaks == summary.end - summary.start
            &&& previous matches Some(before) ==> summary.activities.contains_key(before.activity)
            &&& previous is None ==> summary.end == summary.start
        },
    }
}

/// The number of entries that a collector can account for.
pub const MAX_LOAD: u64 = 100_000_000_000_000;

/// How far the reading of a log has come.
enum State {
    /// No activity has begun yet.
    Empty,
    /// An activity is going on.
    Open {
        /// The summary of all that has ended.
        summary: Summary,
        /// The activity that is going on.
        current: BlockData,
        /// The activity before it, which the summary accounts for already.
        previous: Option<BlockData>,
    },
}

/// Consumes the entries of a log one by one and builds up the summary of
/// the day.
pub struct BlockCollector {
    state: State,
    /// How many entries have changed the durations of the summary.
    load: u64,
    /// Whether every activity so far was marked to be spread just if its
    /// name says so.
    marked_by_name: bool,
}

/// The identity of the activity before the one that is going on.
pub open spec fn view_of(block: Option<BlockData>) -> Option<BlockDataView> {
    match block {
        Some(data) => Some(data@),
        None => None,
    }
}

impl View for BlockCollector {
    type V = CollectorView;

    closed spec fn view(&self) -> CollectorView {
        match self.state {
            State::Empty => CollectorView::Empty,
            State::Open { summary, current, previous } => CollectorView::Open {
                summary: summary@,
                current: current@,
                previous: view_of(previous),
            },
        }
    }
}

/// The summary of a day with what was going on at its end.
#[derive(Debug, PartialEq, Eq)]
pub struct CollectResult {
    pub summary: Summary,
    /// The activity that was going on at the end.
    pub final_activity: String,
    /// The first of its tags that begins with `=`, if any.
    pub final_shortname: Option<String>,
    /// When it began.
    pub final_start: Time,
}

/// The first of the tags that begins with `=`, if any.
pub open spec fn first_shortname(tags: Seq<Seq<char>>) -> Option<Seq<char>>
    decreases tags.len(),
{
    if tags.len() == 0 {
        None
    } else if crate::text::begins_with(tags[0], '=') {
        Some(tags[0])
    } else {
        first_shortname(tags.drop_first())
    }
}

/// The text of a name that may be missing.
pub open spec fn text_of(name: Option<String>) -> Option<Seq<char>> {
    match name {
        Some(s) => Some(s@),
        None => None,
    }
}

/// The first of the tags that begins with `=`, if any.
fn find_shortname(tags: &Vec<String>) -> (found: Option<String>)
    ensures
        text_of(found) == first_shortname(texts(tags@)),
{
    let mut i: usize = 0;
    proof {
        assert(texts(tags@).skip(0) =~= texts(tags@));
    }
    while i < tags.len()
        invariant
            i <= tags.len(),
            first_shortname(texts(tags@).skip(i as int)) == first_shortname(texts(tags@)),
        decreases tags.len() - i,
    {
        if starts_with_char(tags[i].as_str(), '=') {
            return Some(tags[i].clone());
        }
        proof {
            assert(texts(tags@).skip(i as int).drop_first() =~= texts(tags@).skip(i + 1));
        }
        i += 1;
    }
    None
}

/// The block that ends the day at `time`: a break begins.
pub open spec fn closing_block(time: int) -> BlockDataView {
    BlockDataView { start: time, activity: "break"@, tags: Seq::empty(), distribute: false }
}

/// The break that ends a day is not there to be spread, and its name
/// does not say so.
pub proof fn lemma_closing_is_marked(time: int)
    ensures
        is_marked_by_name(closing_block(time)),
{
    reveal_strlit("break");
}

/// Whether `result` is what is left of a day of which the collector held
/// `state` and which was closed at `at`, if that is given.
pub open spec fn is_result_of(
    result: Option<CollectResult>,
    state: CollectorView,
    at: Option<int>,
) -> bool {
    match state {
        CollectorView::Empty => result is None,
        CollectorView::Open { summary, current, previous } => {
            &&& result matches Some(collected)
            &&& collected.final_activity@ == current.activity
            &&& text_of(collected.final_shortname) == first_shortname(current.tags)
            &&& collected.final_start@ == current.start
            &&& collected.summary@ == match at {
                Some(time) => closed_at(summary, current, time),
                None => summary,
            }
        },
    }
}

impl BlockCollector {
    #[verifier::type_invariant]
    closed spec fn in_order(&self) -> bool {
        &&& self.load <= MAX_LOAD
        &&& sound(self@)
        &&& self.state matches State::Open { summary, .. } ==> durations_within(
            summary@,
            86_400 * self.load,
        ) && is_accounted(summary)
        &&& self.marked_by_name ==> (self.state matches State::Open { summary, current, previous }
            ==> {
            &&& is_spread_accounted(summary)
            &&& is_marked_by_name(current@)
            &&& previous matches Some(before) ==> is_marked_by_name(before@)
        })
    }

    /// Whether every activity that the collector has taken was marked to
    /// be spread just if its name says so.
    pub closed spec fn is_marked_by_name(&self) -> bool {
        self.marked_by_name
    }

    /// How many entries have changed the durations of the summary.
    pub closed spec fn load(&self) -> nat {
        self.load as nat
    }

    /// Whether the collector can take the entry `event`: an activity
    /// cannot begin before the one that is going on, and the collector
    /// accounts for `MAX_LOAD` entries at most.
    pub open spec fn takes(&self, event: BlockView) -> bool {
        admits(self@, event) && self.load() < MAX_LOAD
    }

    /// A collector that has seen nothing.
    pub fn new() -> (collector: BlockCollector)
        ensures
            collector@ == CollectorView::Empty,
            collector.load() == 0,
            collector.is_marked_by_name(),
    {
        BlockCollector { state: State::Empty, load: 0, marked_by_name: true }
    }

    /// Whether the collector can take `block`.
    pub fn accepts(&self, block: &Block) -> (yes: bool)
        ensures
            yes == self.takes(block@),
    {
        proof {
            use_type_invariant(self);
        }
        if self.load >= MAX_LOAD {
            return false;
        }
        match (&self.state, block) {
            (State::Open { current, .. }, Block::NormalBlock(next)) => {
                next.start.num_seconds_from_midnight() >= current.start.num_seconds_from_midnight()
            },
            _ => true,
        }
    }

    /// Takes the next entry of the log.
    pub fn add(&mut self, block: Block)
        requires
            old(self).takes(block@),
        ensures
            final(self)@ == step(old(self)@, block@),
            sound(final(self)@),
            old(self).load() <= final(self).load() <= old(self).load() + 1,
            final(self).is_marked_by_name() == (old(self).is_marked_by_name() && marks_by_name(
                block@,
            )),
    {
        proof {
            use_type_invariant(&*self);
        }
        let ghost bound = 86_400 * self.load;
        let mut state = State::Empty;
        std::mem::swap(&mut state, &mut self.state);
        let marked = match &block {
            Block::NormalBlock(data) => data.distribute == is_distributable(
                data.activity.as_str(),
            ),
            Block::ReallyBlock(data) => data.distribute == is_distributable(
                data.activity.as_str(),
            ),
            _ => true,
        };
        if !marked {
            self.marked_by_name = false;
        }
        match state {
            State::Empty => {
                match block {
                    Block::NormalBlock(first) => {
                        let summary = Summary {
                            start: first.start,
                            end: first.start,
                            breaks: Duration::zero(),
                            work_time: Duration::zero(),
                            activities: NameMap::new(),
                            distribute: Duration::zero(),
                        };
                        proof {
                            assert(summary@.activities =~= Map::empty());
                        }
                        self.state = State::Open { summary, current: first, previous: None };
                    },
                    _ => {},
                }
            },
            State::Open { mut summary, current: last, previous: prev } => {
                match block {
                    Block::CommentBlock(_) => {
                        self.state = State::Open { summary, current: last, previous: prev };
                    },
                    Block::TimeCorrection(real_start) => {
                        let diff = real_start.signed_duration_since(&last.start);
                        match &prev {
                            Some(before) => {
                                move_activity(&mut summary, before, real_start, diff, Ghost(bound));
                            },
                            None => {
                                summary.start = real_start;
                                summary.end = real_start;
                            },
                        }
                        let current = BlockData {
                            start: real_start,
                            activity: last.activity,
                            tags: last.tags,
                            distribute: last.distribute,
                        };
                        self.load = self.load + 1;
                        self.state = State::Open { summary, current, previous: prev };
                    },
                    Block::ReallyBlock(actual) => {
                        let current = BlockData {
                            start: last.start,
                            activity: actual.activity,
                            tags: actual.tags,
                            distribute: actual.distribute,
                        };
                        self.state = State::Open { summary, current, previous: prev };
                    },
                    Block::NormalBlock(next) => {
                        close_activity(&mut summary, &last, next.start, Ghost(bound));
                        self.load = self.load + 1;
                        self.state = State::Open { summary, current: next, previous: Some(last) };
                    },
                }
            },
        }
    }

    /// Ends the collection and returns the summary, or nothing if no
    /// activity ever began. If a time is given, the day ends with a break
    /// that begins then, so that the summary accounts for the activity
    /// that was going on.
    pub fn finalize(self, at: Option<&Time>) -> (result: Option<CollectResult>)
        requires
            at matches Some(time) ==> self.takes(BlockView::Normal(closing_block(time@))),
        ensures
            is_result_of(
                result,
                self@,
                match at {
                    Some(time) => Some(time@),
                    None => None,
                },
            ),
            sound(self@),
            result matches Some(collected) ==> collected.summary@.work_time
                + collected.summary@.breaks == collected.summary@.end - collected.summary@.start,
            result matches Some(collected) ==> is_accounted(collected.summary),
            self.is_marked_by_name() ==> (result matches Some(collected) ==> is_spread_accounted(
                collected.summary,
            )),
    {
        proof {
            use_type_invariant(&self);
        }
        let mut collector = self;
        let identity = match &collector.state {
            State::Empty => None,
            State::Open { current, .. } => Some(
                (current.activity.clone(), find_shortname(&current.tags), current.start),
            ),
        };
        match identity {
            None => None,
            Some((final_activity, final_shortname, final_start)) => {
                if let Some(time) = at {
                    let closing = Block::NormalBlock(
                        BlockData {
                            start: *time,
                            activity: String::from_str("break"),
                            tags: Vec::new(),
                            distribute: false,
                        },
                    );
                    proof {
                        assert(closing@ == BlockView::Normal(closing_block(time@))) by {
                            assert(texts(Seq::<String>::empty()) =~= Seq::<Seq<char>>::empty());
                        }
                        lemma_closing_is_marked(time@);
                    }
                    collector.add(closing);
                }
                proof {
                    use_type_invariant(&collector);
                }
                let BlockCollector { state, load, marked_by_name } = collector;
                match state {
                    State::Open { summary, .. } => Some(
                        CollectResult { summary, final_activity, final_shortname, final_start },
                    ),
                    State::Empty => None,
                }
            },
        }
    }
}

/// What a collector holds after the entries `events`, one after the other.
pub open spec fn run(state: CollectorView, events: Seq<BlockView>) -> CollectorView
    decreases events.len(),
{
    if events.len() == 0 {
        state
    } else {
        run(step(state, events[0]), events.drop_first())
    }
}

/// An entry leaves the books of a collector in order.
pub proof fn lemma_step_keeps_sound(state: CollectorView, event: BlockView)
    requires
        sound(state),
    ensures
        sound(step(state, event)),
{
}

/// Every second between the start and the end of a summary is accounted
/// for: whatever entries a collector has taken, and so in particular after
/// activities that began one after the other, the work time and the
/// breaks add up to the time from the start of the day to its end.
pub proof fn lemma_time_is_accounted_for(events: Seq<BlockView>)
    ensures
        sound(run(CollectorView::Empty, events)),
        run(CollectorView::Empty, events) matches CollectorView::Open { summary, .. }
            ==> summary.work_time + summary.breaks == summary.end - summary.start,
{
    lemma_run_keeps_sound(CollectorView::Empty, events);
}

/// A run of entries leaves the books of a collector in order.
pub proof fn lemma_run_keeps_sound(state: CollectorView, events: Seq<BlockView>)
    requires
        sound(state),
    ensures
        sound(run(state, events)),
    decreases events.len(),
{
    if events.len() > 0 {
        lemma_step_keeps_sound(state, events[0]);
        lemma_run_keeps_sound(step(state, events[0]), events.drop_first());
    }
}

/// A correction of the start of the second activity of a day moves the
/// end of the first: if the first is a break, the breaks of the day last
/// from its start to the corrected time, whatever the second start was
/// recorded as, and the summary ends at the corrected time.
pub proof fn lemma_correction_compensates(
    first: BlockDataView,
    second: BlockDataView,
    corrected: int,
)
    requires
        break_name(first.activity),
    ensures
        run(
            CollectorView::Empty,
            seq![
                BlockView::Normal(first),
                BlockView::Normal(second),
                BlockView::Correction(corrected),
            ],
        ) matches CollectorView::Open { summary, .. } && summary.breaks == corrected - first.start
            && summary.end == corrected,
{
    let events = seq![
        BlockView::Normal(first),
        BlockView::Normal(second),
        BlockView::Correction(corrected),
    ];
    let one = step(CollectorView::Empty, events[0]);
    let two = step(one, events[1]);
    let three = step(two, events[2]);
    assert(events.drop_first() =~= seq![events[1], events[2]]);
    assert(events.drop_first().drop_first() =~= seq![events[2]]);
    assert(events.drop_first().drop_first().drop_first() =~= Seq::<BlockView>::empty());
    assert(run(three, Seq::<BlockView>::empty()) == three);
    assert(run(two, seq![events[2]]) == three);
    assert(run(one, seq![events[1], events[2]]) == three);
}

/// The complaint about an activity that begins before the one that is
/// going on.
pub open spec fn out_of_order() -> Seq<char> {
    "start time lies before the start of the previous entry"@
}

/// What a collector holds after the lines `lines` of a log, or the
/// complaint about the first line that is malformed or out of order,
/// together with that line.
pub open spec fn read_log(
    state: CollectorView,
    lines: Seq<Seq<char>>,
    prefix: Option<Seq<char>>,
) -> Result<CollectorView, (Seq<char>, Seq<char>)>
    decreases lines.len(),
{
    if lines.len() == 0 {
        Ok(state)
    } else {
        match block_of_line(lines[0], prefix) {
            Err(message) => Err((message, lines[0])),
            Ok(event) => {
                if admits(state, event) {
                    read_log(step(state, event), lines.drop_first(), prefix)
                } else {
                    Err((out_of_order(), lines[0]))
                }
            },
        }
    }
}

/// Whether a day of which the collector holds `state` can end at `at`:
/// not before the activity that is going on began.
pub open spec fn can_end(state: CollectorView, at: Option<int>) -> bool {
    match (state, at) {
        (CollectorView::Open { current, .. }, Some(time)) => time >= current.start,
        _ => true,
    }
}

/// Whether `error` says that the day cannot end when it was told to.
pub open spec fn refuses_end(error: TTError) -> bool {
    &&& error.context@.len() == 0
    &&& error.kind matches TTErrorKind::UsageError(message)
    &&& message@ == "the day cannot end before its last entry begins"@
}

/// The time that a reference to a time stands for.
pub open spec fn seconds_of(time: Option<&Time>) -> Option<int> {
    match time {
        Some(t) => Some(t@),
        None => None,
    }
}

/// Reads the lines of a log, collects what they say, and ends the day at
/// `add_ending_at` if that is given. A line that cannot be read, an
/// activity that begins before the one before it, and an end of the day
/// before the start of its last activity are errors; the first one
/// counts.
pub fn collect_blocks(
    lines: Vec<String>,
    add_ending_at: Option<&Time>,
    config: &TTConfig,
) -> (result: Result<Option<CollectResult>, TTError>)
    requires
        lines.len() < MAX_LOAD,
    ensures
        match read_log(CollectorView::Empty, texts(lines@), prefix_of(*config)) {
            Err((message, line)) => result matches Err(e) && complains(e, message, line),
            Ok(state) => {
                if can_end(state, seconds_of(add_ending_at)) {
                    result matches Ok(collected) && is_result_of(
                        collected,
                        state,
                        seconds_of(add_ending_at),
                    )
                } else {
                    result matches Err(e) && refuses_end(e)
                }
            },
        },
        result matches Ok(Some(collected)) ==> is_accounted(collected.summary)
            && collected.summary@.work_time + collected.summary@.breaks == collected.summary@.end
            - collected.summary@.start,
        result matches Ok(Some(collected)) ==> !(prefix_of(*config) matches Some(prefix)
            && crate::text::begins_with(prefix, '_')) ==> is_spread_accounted(collected.summary),
{
    let ghost prefix = prefix_of(*config);
    let ghost all = texts(lines@);
    let mut collector = BlockCollector::new();
    let mut pending = lines;
    let n = pending.len();
    let mut i: usize = 0;
    proof {
        assert(all.skip(0) =~= all);
    }
    while i < n
        invariant
            i <= n,
            n == pending.len(),
            n < MAX_LOAD,
            prefix == prefix_of(*config),
            all == texts(lines@),
            forall|j: int| i <= j < n ==> (#[trigger] pending@[j])@ == all[j],
            all.len() == n,
            collector.load() <= i,
            !(prefix matches Some(p) && crate::text::begins_with(p, '_'))
                ==> collector.is_marked_by_name(),
            read_log(collector@, all.skip(i as int), prefix) == read_log(
                CollectorView::Empty,
                all,
                prefix,
            ),
        decreases n - i,
    {
        let mut line = String::new();
        pending.set_and_swap(i, &mut line);
        proof {
            assert(all.skip(i as int).drop_first() =~= all.skip(i + 1));
            assert(all.skip(i as int)[0] == line@);
        }
        match Block::from_line(line.clone(), config) {
            Err(error) => {
                return Err(error);
            },
            Ok(block) => {
                if !collector.accepts(&block) {
                    return Err(
                        TTError::new(
                            TTErrorKind::ParseError(
                                "start time lies before the start of the previous entry",
                                line,
                            ),
                        ),
                    );
                }
                proof {
                    if !(prefix matches Some(p) && crate::text::begins_with(p, '_')) {
                        crate::log_parser::lemma_line_marks_by_name(line@, prefix);
                    }
                }
                collector.add(block);
            },
        }
        i += 1;
    }
    proof {
        assert(all.skip(n as int) =~= Seq::<Seq<char>>::empty());
    }
    match add_ending_at {
        Some(time) => {
            let closing = Block::NormalBlock(
                BlockData {
                    start: *time,
                    activity: String::from_str("break"),
                    tags: Vec::new(),
                    distribute: false,
                },
            );
            proof {
                assert(closing@ == BlockView::Normal(closing_block(time@))) by {
                    assert(texts(Seq::<String>::empty()) =~= Seq::<Seq<char>>::empty());
                }
                lemma_closing_is_marked(time@);
            }
            if !collector.accepts(&closing) {
                return Err(
                    TTError::new(
                        TTErrorKind::UsageError("the day cannot end before its last entry begins"),
                    ),
                );
            }
            Ok(collector.finalize(add_ending_at))
        },
        None => Ok(collector.finalize(None)),
    }
}

} // verus!
