//! Spreading the time of a day over the activities that are shown: the
//! time of the activities that are there to be spread, and of those that
//! are too short to be shown, goes to the others in proportion to their
//! own time.

use crate::collector::{
    is_accounted,
    is_of_kind,
    is_spread_accounted,
    seconds_of_kind,
    ActivityDurations,
    Kind,
    Summary,
};
use crate::log_parser::{break_name, distributable_name, is_break, is_distributable};
use crate::name_map::NameMap;
use crate::time::Duration;
use vstd::prelude::*;

verus! {

/// The activities of a summary in alphabetical order, each with its
/// seconds.
pub open spec fn rows(activities: ActivityDurations) -> Seq<(Seq<char>, int)> {
    activities.list().map_values(
        |entry: (Seq<char>, (Duration, NameMap<Duration>))| (entry.0, (entry.1).0@),
    )
}

/// The seconds of a duration that may be missing.
pub open spec fn seconds_of(duration: Option<Duration>) -> Option<int> {
    match duration {
        Some(d) => Some(d@),
        None => None,
    }
}

/// Whether an activity is too short to be shown by itself: it is neither a
/// break nor to be spread over the others, and lasted less than the cutoff.
pub open spec fn too_short(row: (Seq<char>, int), cutoff: Option<int>) -> bool {
    &&& cutoff matches Some(least)
    &&& !break_name(row.0)
    &&& !distributable_name(row.0)
    &&& row.1 < least
}

/// The seconds of all activities that are too short to be shown.
pub open spec fn cutoff_seconds(rows: Seq<(Seq<char>, int)>, cutoff: Option<int>) -> int
    decreases rows.len(),
{
    if rows.len() == 0 {
        0
    } else {
        cutoff_seconds(rows.drop_last(), cutoff) + if too_short(rows.last(), cutoff) {
            rows.last().1
        } else {
            0
        }
    }
}

/// Whether a number of seconds can be held in a `Duration`.
pub open spec fn is_duration(seconds: int) -> bool {
    i64::MIN <= seconds <= i64::MAX
}

/// The size of a number.
pub open spec fn size(x: int) -> int {
    if x < 0 {
        -x
    } else {
        x
    }
}

/// The quotient of `a` by `b`, which is not zero, cut down to a whole
/// number towards zero.
pub open spec fn quotient_toward_zero(a: int, b: int) -> int {
    if (a < 0) == (b < 0) {
        size(a) / size(b)
    } else {
        -(size(a) / size(b))
    }
}

/// The part of the `pool` that an activity of `own` seconds receives when
/// the activities that share the pool have `denominator` seconds together:
/// the pool times its part of those seconds, cut down to whole seconds; and
/// nothing where there is nothing to share with.
pub open spec fn share(pool: int, own: int, denominator: int) -> int {
    if denominator == 0 {
        0
    } else {
        quotient_toward_zero(pool * own, denominator)
    }
}

/// The seconds that are spread over the activities shown: those of the
/// activities that are too short and, unless all activities are shown,
/// those of the activities that are there to be spread.
pub open spec fn pool_seconds(distribute: int, cut: int, all: bool) -> int {
    if all {
        cut
    } else {
        cut + distribute
    }
}

/// Whether an activity is shown and receives a share: it is no break, it is
/// not there to be spread unless all activities are shown, and it is not
/// shorter than the cutoff.
pub open spec fn receives(row: (Seq<char>, int), cutoff: Option<int>, all: bool) -> bool {
    &&& !break_name(row.0)
    &&& all || !distributable_name(row.0)
    &&& row.1 >= match cutoff {
        Some(least) => least,
        None => 0,
    }
}

/// An activity with its share added to its seconds.
pub open spec fn adjusted(row: (Seq<char>, int), pool: int, denominator: int) -> (Seq<char>, int) {
    (row.0, row.1 + share(pool, row.1, denominator))
}

/// The activities that are shown, in the order of `rows`, each with its
/// share of the pool added.
pub open spec fn distributed(
    rows: Seq<(Seq<char>, int)>,
    cutoff: Option<int>,
    all: bool,
    pool: int,
    denominator: int,
) -> Seq<(Seq<char>, int)>
    decreases rows.len(),
{
    if rows.len() == 0 {
        seq![]
    } else {
        let before = distributed(rows.drop_last(), cutoff, all, pool, denominator);
        if receives(rows.last(), cutoff, all) {
            before.push(adjusted(rows.last(), pool, denominator))
        } else {
            before
        }
    }
}

/// What a summary holds for the distribution: its activities and their
/// seconds, its work time and the time to be spread.
pub struct Account {
    pub rows: Seq<(Seq<char>, int)>,
    pub work_time: int,
    pub distribute: int,
}

/// The account of a summary.
pub open spec fn account_of(summary: Summary) -> Account {
    Account {
        rows: rows(summary.activities),
        work_time: summary.work_time@,
        distribute: summary.distribute@,
    }
}

/// The seconds that are spread over the activities shown.
pub open spec fn pool_of(account: Account, cutoff: Option<int>, all: bool) -> int {
    pool_seconds(account.distribute, cutoff_seconds(account.rows, cutoff), all)
}

/// The seconds of the activities that share the pool: the work time
/// without the time that is there to be spread and without that of the
/// activities that are too short.
pub open spec fn denominator_of(account: Account, cutoff: Option<int>) -> int {
    account.work_time - account.distribute - cutoff_seconds(account.rows, cutoff)
}

/// The activities of an account that are shown, in alphabetical order, each
/// with its share of the pool added.
pub open spec fn adjusted_rows(account: Account, cutoff: Option<int>, all: bool) -> Seq<
    (Seq<char>, int),
> {
    distributed(
        account.rows,
        cutoff,
        all,
        pool_of(account, cutoff, all),
        denominator_of(account, cutoff),
    )
}

/// Whether the distribution can be held in durations: the seconds of the
/// activities that are too short, the pool, and the adjusted seconds of
/// every activity shown.
pub open spec fn distribution_fits(account: Account, cutoff: Option<int>, all: bool) -> bool {
    &&& is_duration(cutoff_seconds(account.rows, cutoff))
    &&& is_duration(pool_of(account, cutoff, all))
    &&& forall|i: int|
        0 <= i < account.rows.len() && receives(#[trigger] account.rows[i], cutoff, all)
            ==> is_duration(
            adjusted(
                account.rows[i],
                pool_of(account, cutoff, all),
                denominator_of(account, cutoff),
            ).1,
        )
}

/// What a list of named durations holds.
pub open spec fn row_views(list: Seq<(String, Duration)>) -> Seq<(Seq<char>, int)> {
    list.map_values(|row: (String, Duration)| (row.0@, row.1@))
}

/// Returns the sum of the activities with a duration below the cutoff
/// time, if a duration can hold it.
pub fn cutoff_sum(activities: &ActivityDurations, cutoff: &Option<Duration>) -> (sum: Option<
    Duration,
>)
    ensures
        sum is Some <==> is_duration(cutoff_seconds(rows(*activities), seconds_of(*cutoff))),
        sum matches Some(d) ==> d@ == cutoff_seconds(rows(*activities), seconds_of(*cutoff)),
{
    let ghost all = rows(*activities);
    let ghost limit = seconds_of(*cutoff);
    let n = activities.len();
    let mut sum: i128 = 0;
    let mut i: usize = 0;
    proof {
        assert(all.take(0) =~= Seq::<(Seq<char>, int)>::empty());
    }
    while i < n
        invariant
            i <= n,
            n == activities.list().len(),
            all == rows(*activities),
            limit == seconds_of(*cutoff),
            sum == cutoff_seconds(all.take(i as int), limit),
            -0x8000_0000_0000_0000 * i <= sum <= 0x8000_0000_0000_0000 * i,
        decreases n - i,
    {
        proof {
            assert(all.take(i + 1).drop_last() =~= all.take(i as int));
            assert(all.take(i + 1).last() == all[i as int]);
        }
        let name = activities.name_at(i);
        let own: i64 = activities.value_at(i).0.secs;
        if let Some(least) = cutoff {
            if !is_break(name.as_str()) && !is_distributable(name.as_str()) && own < least.secs {
                sum = sum + own as i128;
            }
        }
        i += 1;
    }
    proof {
        assert(all.take(n as int) =~= all);
    }
    if sum < -0x8000_0000_0000_0000 || sum > 0x7fff_ffff_ffff_ffff {
        None
    } else {
        Some(Duration::seconds(sum as i64))
    }
}

/// The part of `pool` that an activity of `own` seconds receives.
pub(crate) fn share_of(pool: i64, own: i64, denominator: i128) -> (part: i128)
    requires
        i128::MIN < denominator,
    ensures
        part == share(pool as int, own as int, denominator as int),
        size(part as int) <= 0x4000_0000_0000_0000_0000_0000_0000_0000,
{
    if denominator == 0 {
        return 0;
    }
    assert(size(pool * own) <= 0x4000_0000_0000_0000_0000_0000_0000_0000) by (nonlinear_arith)
        requires
            -0x8000_0000_0000_0000 <= pool <= 0x8000_0000_0000_0000,
            -0x8000_0000_0000_0000 <= own <= 0x8000_0000_0000_0000,
    ;
    let product: i128 = pool as i128 * own as i128;
    let product_size: i128 = if product < 0 {
        -product
    } else {
        product
    };
    let denominator_size: i128 = if denominator < 0 {
        -denominator
    } else {
        denominator
    };
    let quotient: i128 = product_size / denominator_size;
    assert(0 <= quotient <= product_size) by (nonlinear_arith)
        requires
            quotient == product_size / denominator_size,
            0 <= product_size,
            0 < denominator_size,
    ;
    if (product < 0) == (denominator < 0) {
        quotient
    } else {
        -quotient
    }
}

/// Leaves out the breaks and the activities that are too short or
/// there to be spread, and spreads their time over the others in
/// proportion to their own time. Returns the activities that are left in
/// alphabetical order, each with its adjusted duration; or nothing if a
/// duration cannot hold one of the figures.
pub fn handle_cutoff_and_distribute(summary: &Summary, cutoff: Option<Duration>, all: bool) -> (list:
    Option<Vec<(String, Duration)>>)
    ensures
        list is Some <==> distribution_fits(account_of(*summary), seconds_of(cutoff), all),
        list matches Some(l) ==> row_views(l@) == adjusted_rows(
            account_of(*summary),
            seconds_of(cutoff),
            all,
        ),
{
    let ghost account = account_of(*summary);
    let ghost limit = seconds_of(cutoff);
    let cut: i64 = match cutoff_sum(&summary.activities, &cutoff) {
        Some(d) => d.secs,
        None => {
            return None;
        },
    };
    let pool_wide: i128 = if all {
        cut as i128
    } else {
        cut as i128 + summary.distribute.secs as i128
    };
    if pool_wide < -0x8000_0000_0000_0000 || pool_wide > 0x7fff_ffff_ffff_ffff {
        return None;
    }
    let pool: i64 = pool_wide as i64;
    let denominator: i128 = summary.work_time.secs as i128 - summary.distribute.secs as i128
        - cut as i128;
    let least: i64 = match cutoff {
        Some(d) => d.secs,
        None => 0,
    };
    let mut list: Vec<(String, Duration)> = Vec::new();
    let n = summary.activities.len();
    let mut i: usize = 0;
    proof {
        assert(account.rows.take(0) =~= Seq::<(Seq<char>, int)>::empty());
        assert(row_views(list@) =~= Seq::<(Seq<char>, int)>::empty());
    }
    while i < n
        invariant
            i <= n,
            n == summary.activities.list().len(),
            account == account_of(*summary),
            limit == seconds_of(cutoff),
            least == match limit {
                Some(l) => l,
                None => 0,
            },
            pool == pool_of(account, limit, all),
            denominator == denominator_of(account, limit),
            is_duration(cutoff_seconds(account.rows, limit)),
            row_views(list@) == distributed(
                account.rows.take(i as int),
                limit,
                all,
                pool as int,
                denominator as int,
            ),
            forall|j: int|
                0 <= j < i && receives(#[trigger] account.rows[j], limit, all) ==> is_duration(
                    adjusted(account.rows[j], pool as int, denominator as int).1,
                ),
        decreases n - i,
    {
        proof {
            assert(account.rows.take(i + 1).drop_last() =~= account.rows.take(i as int));
            assert(account.rows.take(i + 1).last() == account.rows[i as int]);
        }
        let name = summary.activities.name_at(i);
        let own: i64 = summary.activities.value_at(i).0.secs;
        if !is_break(name.as_str()) && (all || !is_distributable(name.as_str())) && own >= least {
            let total: i128 = own as i128 + share_of(pool, own, denominator);
            if total < -0x8000_0000_0000_0000 || total > 0x7fff_ffff_ffff_ffff {
                return None;
            }
            let row = (name.clone(), Duration::seconds(total as i64));
            proof {
                assert(row_views(list@.push(row)) =~= row_views(list@).push((row.0@, row.1@)));
            }
            list.push(row);
        }
        i += 1;
    }
    proof {
        assert(account.rows.take(n as int) =~= account.rows);
    }
    Some(list)
}

/// The seconds of all rows together.
pub open spec fn total_seconds(rows: Seq<(Seq<char>, int)>) -> int
    decreases rows.len(),
{
    if rows.len() == 0 {
        0
    } else {
        total_seconds(rows.drop_last()) + rows.last().1
    }
}

/// Whether an activity receives its share of the pool without anything
/// being cut off.
pub open spec fn shares_exactly(own: int, pool: int, denominator: int) -> bool {
    share(pool, own, denominator) * denominator == pool * own
}

/// Where no activity is too short, nothing is cut off.
proof fn lemma_nothing_cut(rows: Seq<(Seq<char>, int)>, cutoff: Option<int>)
    requires
        forall|i: int| 0 <= i < rows.len() ==> !too_short(#[trigger] rows[i], cutoff),
    ensures
        cutoff_seconds(rows, cutoff) == 0,
    decreases rows.len(),
{
    if rows.len() > 0 {
        assert(!too_short(rows[rows.len() - 1], cutoff));
        assert forall|i: int| 0 <= i < rows.drop_last().len() implies !too_short(
            #[trigger] rows.drop_last()[i],
            cutoff,
        ) by {
            assert(rows.drop_last()[i] == rows[i]);
        }
        lemma_nothing_cut(rows.drop_last(), cutoff);
    }
}

/// The adjusted seconds of ordinary work, times the seconds that share
/// the pool, are the seconds of the work times the sum of the two.
proof fn lemma_sum_of_adjusted(
    rows: Seq<(Seq<char>, int)>,
    cutoff: Option<int>,
    pool: int,
    denominator: int,
)
    requires
        forall|i: int|
            0 <= i < rows.len() && is_of_kind((#[trigger] rows[i]).0, Kind::Plain) ==> receives(rows[i], cutoff, false)
                && shares_exactly(rows[i].1, pool, denominator),
    ensures
        total_seconds(distributed(rows, cutoff, false, pool, denominator)) * denominator == (
        denominator + pool) * seconds_of_kind(rows, Kind::Plain),
        denominator == 0 ==> total_seconds(distributed(rows, cutoff, false, pool, denominator))
            == seconds_of_kind(rows, Kind::Plain),
    decreases rows.len(),
{
    if rows.len() > 0 {
        let before = rows.drop_last();
        let last = rows.last();
        assert forall|i: int| 0 <= i < before.len() && is_of_kind((#[trigger] before[i]).0, Kind::Plain) implies receives(
            before[i],
            cutoff,
            false,
        ) && shares_exactly(before[i].1, pool, denominator) by {
            assert(before[i] == rows[i]);
        }
        lemma_sum_of_adjusted(before, cutoff, pool, denominator);
        let shown = distributed(before, cutoff, false, pool, denominator);
        if is_of_kind(last.0, Kind::Plain) {
            assert(rows[rows.len() - 1] == last);
            let row = adjusted(last, pool, denominator);
            assert(shown.push(row).drop_last() =~= shown);
            assert((total_seconds(shown) + last.1 + share(pool, last.1, denominator)) * denominator
                == (denominator + pool) * (seconds_of_kind(before, Kind::Plain) + last.1)) by (nonlinear_arith)
                requires
                    total_seconds(shown) * denominator == (denominator + pool) * seconds_of_kind(
                        before,
                        Kind::Plain,
                    ),
                    share(pool, last.1, denominator) * denominator == pool * last.1,
            ;
        }
    }
}

/// The time of all that is no break is the time of the ordinary work and
/// of what is there to be spread.
pub proof fn lemma_work_is_plain_or_spread(rows: Seq<(Seq<char>, int)>)
    ensures
        seconds_of_kind(rows, Kind::Work) == seconds_of_kind(rows, Kind::Plain) + seconds_of_kind(
            rows,
            Kind::Spread,
        ),
    decreases rows.len(),
{
    if rows.len() > 0 {
        lemma_work_is_plain_or_spread(rows.drop_last());
    }
}

/// Distribution loses no time. Take a summary whose totals are those of
/// its activities, as they are in every summary that a collector makes,
/// and whose time to be spread is the time of the activities that are
/// there to be spread; and show the ordinary activities only. If none of
/// them is shorter than the cutoff and each receives its share of the pool
/// without a remainder, which takes that there is an activity to share
/// with unless the pool is empty, then the adjusted durations add up to
/// the work time: to the time between the start and the end of a day
/// without breaks.
pub proof fn lemma_distribution_conserves(summary: Summary, cutoff: Option<int>)
    requires
        is_accounted(summary),
        is_spread_accounted(summary),
        forall|i: int|
            0 <= i < rows(summary.activities).len() && is_of_kind(
                (#[trigger] rows(summary.activities)[i]).0,
                Kind::Plain,
            ) ==> receives(rows(summary.activities)[i], cutoff, false) && shares_exactly(
                rows(summary.activities)[i].1,
                pool_of(account_of(summary), cutoff, false),
                denominator_of(account_of(summary), cutoff),
            ),
        denominator_of(account_of(summary), cutoff) != 0 || pool_of(
            account_of(summary),
            cutoff,
            false,
        ) == 0,
    ensures
        total_seconds(adjusted_rows(account_of(summary), cutoff, false)) == summary.work_time@,
        summary.breaks@ == 0 ==> total_seconds(adjusted_rows(account_of(summary), cutoff, false))
            == summary.work_time@ - summary.breaks@,
{
    let account = account_of(summary);
    let pool = pool_of(account, cutoff, false);
    let denominator = denominator_of(account, cutoff);
    lemma_work_is_plain_or_spread(account.rows);
    assert forall|i: int| 0 <= i < account.rows.len() implies !too_short(
        #[trigger] account.rows[i],
        cutoff,
    ) by {
        if is_of_kind(account.rows[i].0, Kind::Plain) {
            assert(receives(account.rows[i], cutoff, false));
        }
    }
    lemma_nothing_cut(account.rows, cutoff);
    lemma_sum_of_adjusted(account.rows, cutoff, pool, denominator);
    let total = total_seconds(adjusted_rows(account, cutoff, false));
    assert(total == summary.work_time@) by (nonlinear_arith)
        requires
            total * denominator == (denominator + pool) * denominator,
            denominator != 0 || pool == 0,
            pool == summary.distribute@,
            denominator == summary.work_time@ - summary.distribute@,
            denominator == 0 ==> total == 0,
    ;
}

} // verus!
