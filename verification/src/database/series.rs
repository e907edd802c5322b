//! How many tasks were completed on each of the latest days.

use crate::calendar::{iso_date, iso_date_text, CalendarDay, LocalMoment};
use crate::database::stats::{completion_instants, days_shown, may_show};
use crate::database::AppDatabase;
use crate::error::DbError;
use crate::streaks::{ascending, day_numbers, distinct_sorted, members};
use vstd::prelude::*;

verus! {

/// A day, and how many tasks were completed on it.
#[derive(Debug, Clone, Copy, PartialEq, Eq, Structural)]
pub struct DayCount {
    pub day: CalendarDay,
    pub count: i32,
}

/// How often a day occurs in a list of days.
pub open spec fn occurrences(days: Seq<CalendarDay>, d: int) -> nat
    decreases days.len(),
{
    if days.len() == 0 {
        0
    } else {
        occurrences(days.drop_last(), d) + if days.last().days == d {
            1nat
        } else {
            0nat
        }
    }
}

/// Whether a day stands in a series.
pub open spec fn in_series(series: Seq<DayCount>, d: int) -> bool {
    exists|i: int| 0 <= i < series.len() && #[trigger] series[i].day.days == d
}

/// Whether `series` is the series of the days `days` under the limit
/// `limit`: it lists days of `days`, the later day first, each with the
/// number of times it occurs; a limit that is not negative lets no more
/// days through than it says; and only for the limit are days left out,
/// which are then the earliest ones.
pub open spec fn is_series(days: Seq<CalendarDay>, limit: i32, series: Seq<DayCount>) -> bool {
    &&& forall|i: int, j: int|
        0 <= i < j < series.len() ==> #[trigger] series[i].day.days > #[trigger] series[j].day.days
    &&& forall|i: int|
        0 <= i < series.len() ==> day_numbers(days).contains(#[trigger] series[i].day.days as int)
            && series[i].count == occurrences(days, series[i].day.days as int)
    &&& limit >= 0 ==> series.len() <= limit
    &&& forall|d: int|
        day_numbers(days).contains(d) && !in_series(series, d) ==> series.len() == limit && (
        forall|i: int| 0 <= i < series.len() ==> d < #[trigger] series[i].day.days)
}

/// How often a day occurs in a list of days.
fn count_day(days: &Vec<CalendarDay>, d: i32) -> (n: usize)
    ensures
        n == occurrences(days@, d as int),
        n <= days.len(),
{
    let mut n: usize = 0;
    let mut i: usize = 0;
    assert(days@.take(0) =~= Seq::<CalendarDay>::empty());
    while i < days.len()
        invariant
            i <= days.len(),
            n <= i,
            n == occurrences(days@.take(i as int), d as int),
        decreases days.len() - i,
    {
        assert(days@.take(i + 1).drop_last() =~= days@.take(i as int));
        if days[i].days == d {
            n += 1;
        }
        i += 1;
    }
    assert(days@.take(days.len() as int) =~= days@);
    n
}

/// The series of the days on which tasks were completed: for each of the
/// latest days among `days`, the later day first, how often it occurs. A
/// limit that is not negative lets that many days through. Refused with
/// `OutOfRange` where there are more days than a count can hold.
pub fn completion_series_of(days: &Vec<CalendarDay>, limit: i32) -> (r: Result<
    Vec<DayCount>,
    DbError,
>)
    ensures
        match r {
            Ok(series) => days.len() <= i32::MAX && is_series(days@, limit, series@),
            Err(e) => e == DbError::OutOfRange && days.len() > i32::MAX,
        },
{
    if days.len() > 2147483647 {
        return Err(DbError::OutOfRange);
    }
    let sorted: Vec<i32> = distinct_sorted(days);
    let n: usize = sorted.len();
    let count: usize = if limit >= 0 && (limit as usize) < n {
        limit as usize
    } else {
        n
    };
    let mut series: Vec<DayCount> = Vec::new();
    let mut k: usize = 0;
    while k < count
        invariant
            k <= count <= n,
            n == sorted.len(),
            days.len() <= i32::MAX,
            ascending(sorted@),
            members(sorted@) == day_numbers(days@),
            series.len() == k,
            forall|i: int| 0 <= i < k ==> (#[trigger] series[i]).day.days == sorted[n - 1 - i],
            forall|i: int|
                0 <= i < k ==> (#[trigger] series[i]).count == occurrences(
                    days@,
                    sorted[n - 1 - i] as int,
                ),
        decreases count - k,
    {
        let d: i32 = sorted[n - 1 - k];
        let c: usize = count_day(days, d);
        series.push(DayCount { day: CalendarDay { days: d }, count: c as i32 });
        k += 1;
    }
    proof {
        let s = series@;
        assert forall|i: int| 0 <= i < s.len() implies day_numbers(days@).contains(
            #[trigger] s[i].day.days as int,
        ) by {
            assert(members(sorted@).contains(sorted[n - 1 - i] as int));
        }
        assert forall|d: int| day_numbers(days@).contains(d) && !in_series(s, d) implies s.len()
            == limit && (forall|i: int| 0 <= i < s.len() ==> d < #[trigger] s[i].day.days) by {
            assert(members(sorted@).contains(d));
            let j = choose|j: int| 0 <= j < sorted.len() && sorted[j] == d;
            if j >= n - count {
                assert(s[n - 1 - j].day.days == d);
            }
            assert forall|i: int| 0 <= i < s.len() implies d < #[trigger] s[i].day.days by {
                assert(sorted[j] < sorted[n - 1 - i]);
            }
        }
    }
    Ok(series)
}

/// The series with each day written as year, month and day: `None` for the
/// first day that cannot be written.
pub open spec fn labelled(series: Seq<DayCount>) -> Option<Seq<(Seq<char>, i32)>>
    decreases series.len(),
{
    if series.len() == 0 {
        Some(Seq::empty())
    } else {
        match (labelled(series.drop_last()), iso_date_text(series.last().day.days as int)) {
            (Some(front), Some(text)) => Some(front.push((text, series.last().count))),
            _ => None,
        }
    }
}

/// What a list of labelled counts holds.
pub open spec fn label_views(list: Seq<(String, i32)>) -> Seq<(Seq<char>, i32)> {
    Seq::new(list.len(), |i: int| (list[i].0@, list[i].1))
}

/// Writes each day of a series as year, month and day. Refused with
/// `OutOfRange` where a day cannot be written.
pub fn label_series(series: &Vec<DayCount>) -> (r: Result<Vec<(String, i32)>, DbError>)
    ensures
        match r {
            Ok(list) => labelled(series@) == Some(label_views(list@)),
            Err(e) => e == DbError::OutOfRange && labelled(series@) is None,
        },
{
    let mut list: Vec<(String, i32)> = Vec::new();
    let mut i: usize = 0;
    assert(series@.take(0) =~= Seq::<DayCount>::empty());
    assert(label_views(list@) =~= Seq::<(Seq<char>, i32)>::empty());
    while i < series.len()
        invariant
            i <= series.len(),
            labelled(series@.take(i as int)) == Some(label_views(list@)),
        decreases series.len() - i,
    {
        assert(series@.take(i + 1).drop_last() =~= series@.take(i as int));
        let ghost front = label_views(list@);
        match iso_date(series[i].day) {
            Some(text) => {
                list.push((text, series[i].count));
                assert(label_views(list@) =~= front.push((text@, series[i as int].count)));
            },
            None => {
                proof {
                    lemma_labelled_fails(series@, i as int);
                }
                return Err(DbError::OutOfRange);
            },
        }
        i += 1;
    }
    assert(series@.take(series.len() as int) =~= series@);
    Ok(list)
}

/// A series with a day that cannot be written cannot be labelled.
proof fn lemma_labelled_fails(series: Seq<DayCount>, at: int)
    requires
        0 <= at < series.len(),
        iso_date_text(series[at].day.days as int) is None,
    ensures
        labelled(series) is None,
    decreases series.len(),
{
    if at < series.len() - 1 {
        lemma_labelled_fails(series.drop_last(), at);
    }
}

/// Whether `r` is what comes of listing, under the limit `limit`, the days
/// `completed` with their counts and writing each day as year, month and
/// day: the labelled series of those days; or a refusal with `OutOfRange`,
/// because there are more days than a count can hold or because a day of
/// their series cannot be written.
pub open spec fn series_outcome(
    completed: Seq<CalendarDay>,
    limit: i32,
    r: Result<Vec<(String, i32)>, DbError>,
) -> bool {
    match r {
        Ok(list) => exists|series: Seq<DayCount>|
            is_series(completed, limit, series) && labelled(series) == Some(label_views(list@)),
        Err(e) => {
            &&& e == DbError::OutOfRange
            &&& (completed.len() > i32::MAX || exists|series: Seq<DayCount>|
                is_series(completed, limit, series) && labelled(series) is None)
        },
    }
}

/// Whether `r` is what comes of listing the completions at `instants` where
/// the machine's time zone shows `moments` at them; see [`series_outcome`].
pub open spec fn series_from(
    instants: Seq<i64>,
    moments: Seq<Option<LocalMoment>>,
    limit: i32,
    r: Result<Vec<(String, i32)>, DbError>,
) -> bool {
    may_show(instants, moments) && series_outcome(days_shown(moments), limit, r)
}

/// The series of no days is empty.
pub proof fn lemma_series_of_nothing(limit: i32, series: Seq<DayCount>)
    requires
        is_series(Seq::<CalendarDay>::empty(), limit, series),
    ensures
        series.len() == 0,
{
    if series.len() > 0 {
        assert(day_numbers(Seq::<CalendarDay>::empty()).contains(series[0].day.days as int));
    }
}

impl AppDatabase {
    /// For each of the latest days on which tasks were completed, the
    /// later day first, the day written as year, month and day and the
    /// number of tasks completed on it. The days are those that the
    /// machine's time zone shows at the instants of completion; whatever
    /// it shows, the outcome is the labelled series of those days. A limit
    /// that is not negative lets that many days through. Refused with
    /// `OutOfRange` where there are more completions than a count can hold
    /// or a day cannot be written; never refused where nothing was
    /// completed.
    pub fn get_completion_series(&self, days: i32) -> (r: Result<Vec<(String, i32)>, DbError>)
        ensures
            exists|moments: Seq<Option<LocalMoment>>| #[trigger]
                series_from(completion_instants(self@.tasks), moments, days, r),
            completion_instants(self@.tasks).len() == 0 ==> r is Ok,
    {
        let completed: Vec<CalendarDay> = self.completion_days();
        let ghost moments: Seq<Option<LocalMoment>> = choose|moments: Seq<Option<LocalMoment>>|
            may_show(completion_instants(self@.tasks), moments) && completed@ == days_shown(moments);
        let r = match completion_series_of(&completed, days) {
            Ok(series) => {
                proof {
                    if completion_instants(self@.tasks).len() == 0 {
                        assert(completed@ =~= Seq::<CalendarDay>::empty());
                        lemma_series_of_nothing(days, series@);
                        assert(series@ =~= Seq::<DayCount>::empty());
                    }
                }
                label_series(&series)
            },
            Err(e) => Err(e),
        };
        assert(series_from(completion_instants(self@.tasks), moments, days, r));
        r
    }
}

} // verus!
