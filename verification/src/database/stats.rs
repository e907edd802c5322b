//! The figures drawn from the store: how much there is, how much was done
//! today and this week, how long the work was focused, and the streaks.

use crate::calendar::{
    local_moment, now_millis, wall_millis, week_start, weekday_index, within_a_day, within_reach,
    CalendarDay, LocalMoment,
};
use crate::recurrence::local_date_time_to_ms;
use crate::database::{AppDatabase, DbView};
use crate::error::DbError;
use crate::models::{FocusSessionView, Status, Task, TaskView, UserStats};
use crate::streaks::{
    best_streak, current_streak, current_streak_of, day_numbers, distinct_sorted, is_best_streak,
};
use vstd::prelude::*;

verus! {

/// The milliseconds of a day.
pub const DAY_MILLIS: i64 = 86400000;

/// The day for which the figures are drawn, and the instants at which that
/// day and its week began on the machine's wall clock.
#[derive(Debug, Clone, Copy, PartialEq, Eq, Structural)]
pub struct DayWindow {
    pub today: CalendarDay,
    /// The midnight with which today began, in milliseconds since the Unix
    /// epoch.
    pub start_of_day: i64,
    /// The midnight with which the Monday of this week began.
    pub start_of_week: i64,
}

impl DayWindow {
    /// Whether a wall clock may give the window: the day begins less than
    /// a day from the midnight with which today begins on the wall clock,
    /// and the week less than a day from the midnight with which the
    /// Monday of today's week begins.
    pub open spec fn plausible(self) -> bool {
        &&& within_a_day(self.start_of_day, wall_millis(self.today.days as int, 0, 0))
        &&& within_a_day(
            self.start_of_week,
            wall_millis(self.today.days - weekday_index(self.today.days as int), 0, 0),
        )
    }
}

/// The questions that are asked of each task.
pub enum Tally {
    /// Is it `Done`?
    Completed,
    /// Was it completed since today began?
    CompletedToday,
    /// Was it completed since this week began?
    CompletedWeek,
    /// Is it open, with a deadline today?
    DueToday,
    /// Is it open, with a deadline in the seven days from Monday?
    DueWeek,
}

/// Whether a task counts for a question.
pub open spec fn counts_for(t: TaskView, tally: Tally, window: DayWindow) -> bool {
    match tally {
        Tally::Completed => t.status == Status::Done,
        Tally::CompletedToday => t.status == Status::Done && (t.completed_at matches Some(at)
            && at >= window.start_of_day),
        Tally::CompletedWeek => t.status == Status::Done && (t.completed_at matches Some(at) && at
            >= window.start_of_week),
        Tally::DueToday => t.status != Status::Done && (t.deadline matches Some(d)
            && window.start_of_day <= d < window.start_of_day + DAY_MILLIS),
        Tally::DueWeek => t.status != Status::Done && (t.deadline matches Some(d)
            && window.start_of_week <= d < window.start_of_week + 7 * DAY_MILLIS),
    }
}

/// How many tasks count for a question.
pub open spec fn tally_of(tasks: Seq<TaskView>, tally: Tally, window: DayWindow) -> nat
    decreases tasks.len(),
{
    if tasks.len() == 0 {
        0
    } else {
        tally_of(tasks.drop_last(), tally, window) + if counts_for(tasks.last(), tally, window) {
            1nat
        } else {
            0nat
        }
    }
}

/// The minutes of the focus sessions that were completed, added up.
pub open spec fn focus_minutes(sessions: Seq<FocusSessionView>) -> int
    decreases sessions.len(),
{
    if sessions.len() == 0 {
        0
    } else {
        focus_minutes(sessions.drop_last()) + if sessions.last().completed {
            sessions.last().duration_minutes as int
        } else {
            0
        }
    }
}

/// The instants at which the tasks that are `Done` were completed, in the
/// order of the tasks.
pub open spec fn completion_instants(tasks: Seq<TaskView>) -> Seq<i64>
    decreases tasks.len(),
{
    if tasks.len() == 0 {
        Seq::empty()
    } else {
        let front = completion_instants(tasks.drop_last());
        match tasks.last().completed_at {
            Some(at) => if tasks.last().status == Status::Done {
                front.push(at)
            } else {
                front
            },
            None => front,
        }
    }
}

/// The days that moments show, in the order of the moments; a moment that
/// is missing shows none.
pub open spec fn days_shown(moments: Seq<Option<LocalMoment>>) -> Seq<CalendarDay>
    decreases moments.len(),
{
    if moments.len() == 0 {
        Seq::empty()
    } else {
        let front = days_shown(moments.drop_last());
        match moments.last() {
            Some(m) => front.push(m.day),
            None => front,
        }
    }
}

/// Whether `moments` may be what the machine's time zone shows at the
/// instants: one moment for each instant, each one that a time zone may
/// show at its instant, and none missing for an instant within reach of
/// the calendar.
pub open spec fn may_show(instants: Seq<i64>, moments: Seq<Option<LocalMoment>>) -> bool {
    &&& moments.len() == instants.len()
    &&& forall|i: int|
        0 <= i < moments.len() ==> ((#[trigger] moments[i]) matches Some(m) ==> m.shown_at(
            instants[i],
        ))
    &&& forall|i: int|
        0 <= i < moments.len() && within_reach(instants[i]) ==> (#[trigger] moments[i]) is Some
}

/// There are no more instants of completion than tasks.
pub proof fn lemma_completion_instants_len(tasks: Seq<TaskView>)
    ensures
        completion_instants(tasks).len() <= tasks.len(),
    decreases tasks.len(),
{
    if tasks.len() > 0 {
        lemma_completion_instants_len(tasks.drop_last());
    }
}

/// Moments show no more days than there are moments, and as many where none
/// is missing.
pub proof fn lemma_days_shown_len(moments: Seq<Option<LocalMoment>>)
    ensures
        days_shown(moments).len() <= moments.len(),
        (forall|i: int| 0 <= i < moments.len() ==> (#[trigger] moments[i]) is Some) ==> days_shown(
            moments,
        ).len() == moments.len(),
    decreases moments.len(),
{
    if moments.len() > 0 {
        let front = moments.drop_last();
        lemma_days_shown_len(front);
        if forall|i: int| 0 <= i < moments.len() ==> (#[trigger] moments[i]) is Some {
            assert forall|i: int| 0 <= i < front.len() implies (#[trigger] front[i]) is Some by {
                assert(front[i] == moments[i]);
            }
        }
    }
}

/// What the machine's time zone shows at each of the instants, in their
/// order; whatever it shows, it may show it.
pub fn local_moments(instants: &Vec<i64>) -> (moments: Vec<Option<LocalMoment>>)
    ensures
        may_show(instants@, moments@),
{
    let mut moments: Vec<Option<LocalMoment>> = Vec::new();
    let mut i: usize = 0;
    while i < instants.len()
        invariant
            i <= instants.len(),
            may_show(instants@.take(i as int), moments@),
        decreases instants.len() - i,
    {
        moments.push(local_moment(instants[i]));
        i += 1;
    }
    assert(instants@.take(instants.len() as int) =~= instants@);
    moments
}

/// The days that moments show, in the order of the moments; a moment that
/// is missing shows none.
pub fn days_of_moments(moments: &Vec<Option<LocalMoment>>) -> (days: Vec<CalendarDay>)
    ensures
        days@ == days_shown(moments@),
{
    let mut days: Vec<CalendarDay> = Vec::new();
    let mut i: usize = 0;
    assert(moments@.take(0) =~= Seq::<Option<LocalMoment>>::empty());
    while i < moments.len()
        invariant
            i <= moments.len(),
            days@ == days_shown(moments@.take(i as int)),
        decreases moments.len() - i,
    {
        assert(moments@.take(i + 1).drop_last() =~= moments@.take(i as int));
        if let Some(m) = moments[i] {
            days.push(m.day);
        }
        i += 1;
    }
    assert(moments@.take(moments.len() as int) =~= moments@);
    days
}

impl DbView {
    /// Whether the figures fit the fields that report them: twenty points
    /// for every task fit 32 bits, the minutes of focus are not negative
    /// and fit 32 bits, and so does the number of days of completion.
    pub open spec fn figures_fit(self, days: Seq<CalendarDay>) -> bool {
        &&& self.tasks.len() * 20 <= i32::MAX
        &&& 0 <= focus_minutes(self.sessions) <= u32::MAX
        &&& days.len() <= u32::MAX
    }

    /// Whether `stats` are the figures of the store for the day and week of
    /// `window`, where the machine's time zone shows `moments` at the
    /// instants at which the tasks were completed: the window is one that
    /// a wall clock may give, the figures fit their fields and are those
    /// of [`DbView::has_stats`] for the days that the moments show.
    pub open spec fn has_stats_from(
        self,
        window: DayWindow,
        moments: Seq<Option<LocalMoment>>,
        stats: UserStats,
    ) -> bool {
        &&& window.plausible()
        &&& may_show(completion_instants(self.tasks), moments)
        &&& self.figures_fit(days_shown(moments))
        &&& self.has_stats(window, days_shown(moments), stats)
    }

    /// Whether `stats` are the figures of the store for the day and week of
    /// `window`, the tasks having been completed on the days `days` of the
    /// machine's calendar.
    pub open spec fn has_stats(self, window: DayWindow, days: Seq<CalendarDay>, stats: UserStats)
        -> bool {
        let done = tally_of(self.tasks, Tally::Completed, window);
        &&& stats.total_tasks == self.tasks.len()
        &&& stats.completed_tasks == done
        &&& stats.completed_today == tally_of(self.tasks, Tally::CompletedToday, window)
        &&& stats.completed_week == tally_of(self.tasks, Tally::CompletedWeek, window)
        &&& stats.tasks_today == tally_of(self.tasks, Tally::DueToday, window)
        &&& stats.tasks_week == tally_of(self.tasks, Tally::DueWeek, window)
        &&& stats.total_focus_time == focus_minutes(self.sessions)
        &&& stats.current_streak == current_streak_of(day_numbers(days), window.today.days as int)
        &&& is_best_streak(day_numbers(days), stats.best_streak as nat)
        &&& stats.level == done / 10 + 1
        &&& stats.points == done * 20
    }
}

/// Whether a task counts for a question.
fn counts(t: &Task, tally: &Tally, window: &DayWindow) -> (r: bool)
    ensures
        r == counts_for(t@, *tally, *window),
{
    let done: bool = match t.status {
        Status::Done => true,
        _ => false,
    };
    match tally {
        Tally::Completed => done,
        Tally::CompletedToday => done && match t.completed_at {
            Some(at) => at >= window.start_of_day,
            None => false,
        },
        Tally::CompletedWeek => done && match t.completed_at {
            Some(at) => at >= window.start_of_week,
            None => false,
        },
        Tally::DueToday => !done && match t.deadline {
            Some(d) => window.start_of_day <= d && (d as i128) < window.start_of_day as i128
                + DAY_MILLIS as i128,
            None => false,
        },
        Tally::DueWeek => !done && match t.deadline {
            Some(d) => window.start_of_week <= d && (d as i128) < window.start_of_week as i128 + 7
                * DAY_MILLIS as i128,
            None => false,
        },
    }
}

impl AppDatabase {
    /// How many tasks count for a question.
    fn tally(&self, tally: Tally, window: &DayWindow) -> (n: usize)
        ensures
            n == tally_of(self@.tasks, tally, *window),
            n <= self@.tasks.len(),
    {
        let mut n: usize = 0;
        let mut i: usize = 0;
        assert(self@.tasks.take(0) =~= Seq::<TaskView>::empty());
        while i < self.tasks.len()
            invariant
                i <= self.tasks.len(),
                n <= i,
                n == tally_of(self@.tasks.take(i as int), tally, *window),
            decreases self.tasks.len() - i,
        {
            assert(self@.tasks.take(i + 1).drop_last() =~= self@.tasks.take(i as int));
            if counts(&self.tasks[i], &tally, window) {
                n += 1;
            }
            i += 1;
        }
        assert(self@.tasks.take(self.tasks.len() as int) =~= self@.tasks);
        n
    }

    /// The minutes of the focus sessions that were completed, added up;
    /// `None` where the sum is negative or does not fit 32 bits.
    fn focus_total(&self) -> (total: Option<u32>)
        ensures
            match total {
                Some(m) => m == focus_minutes(self@.sessions),
                None => !(0 <= focus_minutes(self@.sessions) <= u32::MAX),
            },
    {
        let mut sum: i128 = 0;
        let mut i: usize = 0;
        assert(self@.sessions.take(0) =~= Seq::<FocusSessionView>::empty());
        while i < self.sessions.len()
            invariant
                i <= self.sessions.len(),
                sum == focus_minutes(self@.sessions.take(i as int)),
                -(i as int) * 0x8000_0000 <= sum <= (i as int) * 0x8000_0000,
            decreases self.sessions.len() - i,
        {
            assert(self@.sessions.take(i + 1).drop_last() =~= self@.sessions.take(i as int));
            if self.sessions[i].completed {
                sum = sum + self.sessions[i].duration_minutes as i128;
            }
            i += 1;
        }
        assert(self@.sessions.take(self.sessions.len() as int) =~= self@.sessions);
        if 0 <= sum && sum <= u32::MAX as i128 {
            Some(sum as u32)
        } else {
            None
        }
    }

    /// The figures of the store for the day and week of `window`, the
    /// tasks having been completed on the days `days`. Refused with
    /// `OutOfRange` where a figure does not fit its field.
    pub fn stats_at(&self, window: DayWindow, days: &Vec<CalendarDay>) -> (r: Result<
        UserStats,
        DbError,
    >)
        ensures
            match r {
                Ok(stats) => self@.figures_fit(days@) && self@.has_stats(window, days@, stats),
                Err(e) => e == DbError::OutOfRange && !self@.figures_fit(days@),
            },
    {
        if self.tasks.len() > 107374182 || days.len() > 4294967295 {
            return Err(DbError::OutOfRange);
        }
        let minutes: u32 = match self.focus_total() {
            Some(m) => m,
            None => {
                return Err(DbError::OutOfRange);
            },
        };
        let done: usize = self.tally(Tally::Completed, &window);
        let sorted: Vec<i32> = distinct_sorted(days);
        Ok(
            UserStats {
                total_tasks: self.tasks.len() as i32,
                completed_tasks: done as i32,
                completed_today: self.tally(Tally::CompletedToday, &window) as i32,
                completed_week: self.tally(Tally::CompletedWeek, &window) as i32,
                best_streak: best_streak(&sorted),
                total_focus_time: minutes,
                tasks_today: self.tally(Tally::DueToday, &window) as i32,
                tasks_week: self.tally(Tally::DueWeek, &window) as i32,
                current_streak: current_streak(&sorted, window.today),
                level: (done / 10) as u32 + 1,
                points: (done * 20) as i32,
            },
        )
    }

    /// The instants at which the tasks that are `Done` were completed, in
    /// the order of the tasks.
    pub fn completion_instants(&self) -> (instants: Vec<i64>)
        ensures
            instants@ == completion_instants(self@.tasks),
    {
        let mut instants: Vec<i64> = Vec::new();
        let mut i: usize = 0;
        assert(self@.tasks.take(0) =~= Seq::<TaskView>::empty());
        while i < self.tasks.len()
            invariant
                i <= self.tasks.len(),
                instants@ == completion_instants(self@.tasks.take(i as int)),
            decreases self.tasks.len() - i,
        {
            assert(self@.tasks.take(i + 1).drop_last() =~= self@.tasks.take(i as int));
            let done: bool = match self.tasks[i].status {
                Status::Done => true,
                _ => false,
            };
            if done {
                if let Some(at) = self.tasks[i].completed_at {
                    instants.push(at);
                }
            }
            i += 1;
        }
        assert(self@.tasks.take(self.tasks.len() as int) =~= self@.tasks);
        instants
    }

    /// The days of the machine's calendar on which the tasks that are
    /// `Done` were completed: for each such task, in the order of the
    /// tasks, the day that the machine's time zone shows at the instant of
    /// completion. A task for whose instant the time zone has no answer is
    /// left out; it has an answer for every instant within
    /// [`CALENDAR_REACH_MS`](crate::calendar::CALENDAR_REACH_MS) of the
    /// epoch.
    pub fn completion_days(&self) -> (days: Vec<CalendarDay>)
        ensures
            exists|moments: Seq<Option<LocalMoment>>|
                may_show(completion_instants(self@.tasks), moments) && days@ == days_shown(moments),
            days.len() <= completion_instants(self@.tasks).len() <= self@.tasks.len(),
            (forall|i: int|
                0 <= i < completion_instants(self@.tasks).len() ==> within_reach(
                    #[trigger] completion_instants(self@.tasks)[i],
                )) ==> days.len() == completion_instants(self@.tasks).len(),
    {
        let instants: Vec<i64> = self.completion_instants();
        let moments: Vec<Option<LocalMoment>> = local_moments(&instants);
        proof {
            lemma_completion_instants_len(self@.tasks);
            lemma_days_shown_len(moments@);
        }
        days_of_moments(&moments)
    }

    /// The figures of the store as of now, with days and weeks as the
    /// machine's wall clock shows them; the week begins on Monday. The
    /// tasks count as completed on the days that the time zone shows at
    /// their instants of completion; whatever it shows, the figures are
    /// those of the store for some day and week and for those days.
    /// Refused with `NoLocalTime` where the wall clock gives no today or no
    /// midnight for today or for Monday, and with `OutOfRange` where a
    /// figure does not fit its field.
    pub fn get_stats(&self) -> (r: Result<UserStats, DbError>)
        ensures
            match r {
                Ok(stats) => exists|window: DayWindow, moments: Seq<Option<LocalMoment>>| #[trigger]
                    self@.has_stats_from(window, moments, stats),
                Err(e) => e == DbError::NoLocalTime || e == DbError::OutOfRange,
            },
    {
        let now: i64 = now_millis();
        let today: CalendarDay = match local_moment(now) {
            Some(m) => m.day,
            None => {
                return Err(DbError::NoLocalTime);
            },
        };
        if today.days < i32::MIN + 6 {
            return Err(DbError::OutOfRange);
        }
        let start_of_day: i64 = match local_date_time_to_ms(today, 0, 0) {
            Some(ms) => ms,
            None => {
                return Err(DbError::NoLocalTime);
            },
        };
        let start_of_week: i64 = match local_date_time_to_ms(week_start(today), 0, 0) {
            Some(ms) => ms,
            None => {
                return Err(DbError::NoLocalTime);
            },
        };
        let days: Vec<CalendarDay> = self.completion_days();
        let ghost moments: Seq<Option<LocalMoment>> = choose|moments: Seq<Option<LocalMoment>>|
            may_show(completion_instants(self@.tasks), moments) && days@ == days_shown(moments);
        let window = DayWindow { today, start_of_day, start_of_week };
        let r = self.stats_at(window, &days);
        proof {
            if let Ok(stats) = r {
                assert(self@.has_stats_from(window, moments, stats));
            }
        }
        r
    }
}

} // verus!
