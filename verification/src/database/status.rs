//! The status of a task, and what completing a task that repeats brings
//! about: a successor, due on the day on which the task comes back.

use crate::calendar::{
    local_moment, now_millis, wall_millis, within_a_day, within_reach, CalendarDay, LocalMoment,
};
use crate::database::{
    lemma_task_added, lemma_task_row_changed, AppDatabase, DbView, TaskChange,
};
use crate::error::DbError;
use crate::ident::fresh_id;
use crate::models::{copy_opt_text, copy_texts, Status, Task, TaskView};
use crate::recurrence::{
    local_date_time_to_ms, next_occurrence, next_occurrence_day, repeat_mode_of, time_of_day,
    time_of_day_or_default, RepeatMode,
};
use vstd::prelude::*;

verus! {

/// What the successor of a completed task gets from outside the store: its
/// identity and its deadline.
#[derive(Debug, PartialEq, Eq)]
pub struct Successor {
    pub id: String,
    /// Milliseconds since the Unix epoch.
    pub deadline: i64,
}

/// What a [`Successor`] holds.
pub struct SuccessorView {
    pub id: Seq<char>,
    pub deadline: i64,
}

impl View for Successor {
    type V = SuccessorView;

    open spec fn view(&self) -> SuccessorView {
        SuccessorView { id: self.id@, deadline: self.deadline }
    }
}

/// The view of a successor that may be absent.
pub open spec fn successor_view(successor: Option<Successor>) -> Option<SuccessorView> {
    match successor {
        Some(s) => Some(s@),
        None => None,
    }
}

/// Whether `from` is a moment from which the next day of a task with the
/// deadline `deadline` is counted at the instant `now`: a moment that a
/// time zone may show at the deadline; or, for a task without a deadline
/// or with one beyond the reach of the calendar, nine o'clock on a day
/// that a time zone may show at `now`.
pub open spec fn counts_from(deadline: Option<i64>, now: i64, from: LocalMoment) -> bool {
    ||| (deadline matches Some(d) && from.shown_at(d))
    ||| ((deadline is None || !within_reach(deadline->0)) && from.hour == 9 && from.minute == 0
        && exists|today: LocalMoment| today.day == from.day && #[trigger] today.shown_at(now))
}

/// The moment from which the next day of a task is counted: the day that
/// the time zone shows at its deadline or, where it shows nothing there or
/// the task has no deadline, the day that it shows now; and the time of
/// day that the new deadline keeps, as [`time_of_day`] says. None where
/// the time zone shows nothing now either.
pub open spec fn moment_to_count_from(shown: Option<LocalMoment>, today: Option<LocalMoment>)
    -> Option<LocalMoment> {
    let day = match shown {
        Some(m) => Some(m.day),
        None => match today {
            Some(t) => Some(t.day),
            None => None,
        },
    };
    match day {
        Some(d) => Some(
            LocalMoment { day: d, hour: time_of_day(shown).0, minute: time_of_day(shown).1 },
        ),
        None => None,
    }
}

/// See [`moment_to_count_from`].
pub fn count_from(shown: Option<LocalMoment>, today: Option<LocalMoment>) -> (from: Option<
    LocalMoment,
>)
    ensures
        from == moment_to_count_from(shown, today),
{
    let (hour, minute) = time_of_day_or_default(shown);
    match shown {
        Some(m) => Some(LocalMoment { day: m.day, hour, minute }),
        None => match today {
            Some(t) => Some(LocalMoment { day: t.day, hour, minute }),
            None => None,
        },
    }
}

impl TaskView {
    /// Whether giving the task the status `status` calls for a successor:
    /// the task becomes `Done` and has a repeat mode.
    pub open spec fn comes_back(self, status: Status) -> bool {
        status == Status::Done && self.repeat_mode is Some
    }

    /// Whether giving the task the status `status` calls for a successor
    /// whatever day is counted from: the task becomes `Done` and repeats
    /// daily or on weekdays.
    pub open spec fn surely_comes_back(self, status: Status) -> bool {
        self.comes_back(status) && (repeat_mode_of(self.repeat_mode->0) == Some(RepeatMode::Daily)
            || repeat_mode_of(self.repeat_mode->0) == Some(RepeatMode::Weekdays))
    }

    /// The successor of the task, created at the instant `now`: the same
    /// project, title, description, priority, tags and repeat settings; a
    /// new identity and deadline; `Todo`, with nothing else carried over.
    pub open spec fn successor(self, next: SuccessorView, now: i64) -> TaskView {
        TaskView {
            id: next.id,
            project_id: self.project_id,
            title: self.title,
            description: self.description,
            priority: self.priority,
            status: Status::Todo,
            created_at: now,
            completed_at: None,
            deadline: Some(next.deadline),
            estimated_minutes: None,
            actual_minutes: None,
            tags: self.tags,
            remind_at: None,
            reminded_at: None,
            repeat_mode: self.repeat_mode,
            repeat_days_mask: self.repeat_days_mask,
            is_archived: false,
            sort_order: 0,
        }
    }
}

impl DbView {
    /// Whether the task `id` is given a successor when it gets the status
    /// `status` and `successor` is at hand.
    pub open spec fn spawns(self, id: Seq<char>, status: Status, successor: Option<SuccessorView>)
        -> bool {
        self.has_task(id) && self.task_with(id).comes_back(status) && successor is Some
    }

    /// Why the store refuses to give the task `id` a status, if it does:
    /// there is no such task, or the successor that is called for has an
    /// empty identity or one that a task has already.
    pub open spec fn refuses_status(
        self,
        id: Seq<char>,
        status: Status,
        successor: Option<SuccessorView>,
    ) -> Option<DbError> {
        if !self.has_task(id) {
            Some(DbError::NotFound)
        } else if self.spawns(id, status, successor) && successor->0.id.len() == 0 {
            Some(DbError::EmptyField)
        } else if self.spawns(id, status, successor) && self.has_task(successor->0.id) {
            Some(DbError::DuplicateId)
        } else {
            None
        }
    }

    /// Whether `successor` is what the task `id` is owed when it gets the
    /// status `status` and its next day is counted from the moment `from`:
    /// a successor exactly where the task comes back and its repeat
    /// settings name a day after the day of `from`. The successor has an
    /// identity that was drawn, 36 characters long, and a deadline less
    /// than a day from the wall-clock time that is the day named at the
    /// hour and minute of `from`.
    pub open spec fn plans(
        self,
        id: Seq<char>,
        status: Status,
        from: LocalMoment,
        successor: Option<SuccessorView>,
    ) -> bool {
        let t = self.task_with(id);
        let day = next_occurrence_day(t.repeat_mode, t.repeat_days_mask, from.day.days as int);
        let called_for = t.comes_back(status) && day is Some;
        match successor {
            Some(next) => {
                &&& called_for
                &&& next.id.len() == 36
                &&& within_a_day(
                    next.deadline,
                    wall_millis(day->0, from.hour as int, from.minute as int),
                )
            },
            None => !called_for,
        }
    }

    /// Whether `after` is what comes of giving the task `id` the status
    /// `status` at the instant `now`, its next day being counted from the
    /// moment `from`: the store has the task and takes the change; where
    /// the task comes back, `from` is a moment to count from, as
    /// [`counts_from`] says; the successor is the one that is owed; and
    /// `after` is the store with the status set and that successor added.
    pub open spec fn updates_status(
        self,
        after: DbView,
        id: Seq<char>,
        status: Status,
        now: i64,
        from: LocalMoment,
        successor: Option<SuccessorView>,
    ) -> bool {
        &&& self.has_task(id)
        &&& self.task_with(id).comes_back(status) ==> counts_from(
            self.task_with(id).deadline,
            now,
            from,
        )
        &&& self.plans(id, status, from, successor)
        &&& self.refuses_status(id, status, successor) is None
        &&& after == self.with_status_set(id, status, now, successor)
    }

    /// Whether `after` is the store once the task `id` is completed and
    /// has got its successor: there is exactly one task more, the
    /// successor, at the end, `Todo`, under an identity that no task had;
    /// the task itself is `Done`, completed, without a reminder and
    /// without repeat settings, and otherwise as it was; and every other
    /// task is as it was.
    pub open spec fn completed_with_successor(self, after: DbView, id: Seq<char>) -> bool {
        let at = self.task_index(id);
        &&& after.tasks.len() == self.tasks.len() + 1
        &&& after.tasks.last() == self.task_with(id).successor(
            SuccessorView {
                id: after.tasks.last().id,
                deadline: after.tasks.last().deadline->0,
            },
            after.tasks.last().created_at,
        )
        &&& after.tasks.last().deadline is Some
        &&& after.tasks.last().id.len() == 36
        &&& !self.has_task(after.tasks.last().id)
        &&& after.tasks[at].completed_at == Some(after.tasks.last().created_at)
        &&& after.tasks[at] == (TaskView {
            status: Status::Done,
            completed_at: after.tasks[at].completed_at,
            remind_at: None,
            repeat_mode: None,
            repeat_days_mask: None,
            ..self.tasks[at]
        })
        &&& forall|i: int|
            0 <= i < self.tasks.len() && i != at ==> #[trigger] after.tasks[i] == self.tasks[i]
    }

    /// The store in which the task `id` has the status `status` since the
    /// instant `now`. Where a successor is called for and at hand, the task
    /// also loses its repeat settings, and its successor is added.
    pub open spec fn with_status_set(
        self,
        id: Seq<char>,
        status: Status,
        now: i64,
        successor: Option<SuccessorView>,
    ) -> DbView {
        let set = self.with_task_changed(id, TaskChange::Status(status, now));
        if self.spawns(id, status, successor) {
            set.with_task_changed(id, TaskChange::Repeat(None, None)).with_task(
                self.task_with(id).successor(successor->0, now),
            )
        } else {
            set
        }
    }
}

impl AppDatabase {
    /// Gives the task `task_id` the status `new_status` at the instant
    /// `now`: a task that becomes `Done` is completed at `now` and has no
    /// reminder left, any other status leaves it not completed. Where the
    /// task becomes `Done`, has a repeat mode, and `successor` is at hand,
    /// a successor is added in the same step and the task loses its repeat
    /// settings, so that it cannot come back a second time. Refused as
    /// [`DbView::refuses_status`] says.
    pub fn set_status_at(
        &mut self,
        task_id: &str,
        new_status: Status,
        now: i64,
        successor: Option<Successor>,
    ) -> (r: Result<(), DbError>)
        requires
            old(self).wf(),
        ensures
            final(self).wf(),
            match r {
                Ok(_) => {
                    &&& old(self)@.refuses_status(task_id@, new_status, successor_view(successor))
                        is None
                    &&& final(self)@ == old(self)@.with_status_set(
                        task_id@,
                        new_status,
                        now,
                        successor_view(successor),
                    )
                },
                Err(e) => {
                    &&& old(self)@.refuses_status(task_id@, new_status, successor_view(successor))
                        == Some(e)
                    &&& final(self)@ == old(self)@
                },
            },
    {
        let key: String = task_id.to_owned();
        let found: Option<usize> = self.find_task(&key);
        let i: usize = match found {
            Some(i) => i,
            None => {
                return Err(DbError::NotFound);
            },
        };
        proof {
            lemma_task_index(self@, i as int);
        }
        let is_done: bool = match new_status {
            Status::Done => true,
            _ => false,
        };
        let next: Option<Successor> = if is_done && self.tasks[i].repeat_mode.is_some() {
            successor
        } else {
            None
        };
        if let Some(s) = &next {
            if s.id.as_str().is_empty() {
                return Err(DbError::EmptyField);
            }
            if self.find_task(&s.id).is_some() {
                return Err(DbError::DuplicateId);
            }
        }
        let ghost set = TaskChange::Status(new_status, now);
        self.tasks[i].status = new_status;
        if is_done {
            self.tasks[i].completed_at = Some(now);
            self.tasks[i].remind_at = None;
        } else {
            self.tasks[i].completed_at = None;
        }
        proof {
            assert(self@.tasks =~= old(self)@.tasks.update(
                i as int,
                old(self)@.tasks[i as int].changed(set),
            ));
            lemma_task_row_changed(old(self)@, self@, found, task_id@, set);
        }
        if let Some(s) = next {
            let ghost mid: DbView = self@;
            let ghost clear = TaskChange::Repeat(None, None);
            let heir = Task {
                id: s.id,
                project_id: copy_opt_text(&self.tasks[i].project_id),
                title: self.tasks[i].title.clone(),
                description: copy_opt_text(&self.tasks[i].description),
                priority: self.tasks[i].priority,
                status: Status::Todo,
                created_at: now,
                completed_at: None,
                deadline: Some(s.deadline),
                estimated_minutes: None,
                actual_minutes: None,
                tags: copy_texts(&self.tasks[i].tags),
                remind_at: None,
                reminded_at: None,
                repeat_mode: copy_opt_text(&self.tasks[i].repeat_mode),
                repeat_days_mask: self.tasks[i].repeat_days_mask,
                is_archived: false,
                sort_order: 0,
            };
            assert(heir@ == old(self)@.task_with(task_id@).successor(s@, now));
            self.tasks[i].repeat_mode = None;
            self.tasks[i].repeat_days_mask = None;
            proof {
                assert(self@.tasks =~= mid.tasks.update(i as int, mid.tasks[i as int].changed(clear)));
                lemma_task_row_changed(mid, self@, found, task_id@, clear);
                assert(!self@.has_task(heir@.id)) by {
                    if self@.has_task(heir@.id) {
                        let k = choose|k: int|
                            0 <= k < self@.tasks.len() && #[trigger] self@.tasks[k].id == heir@.id;
                        assert(old(self)@.tasks[k].id == heir@.id);
                    }
                }
                assert(old(self)@.tasks[i as int].project_id matches Some(p) ==> self@.has_project(
                    p,
                ));
                lemma_task_added(self@, heir@);
            }
            let ghost cleared: DbView = self@;
            self.tasks.push(heir);
            assert(self@.tasks =~= cleared.tasks.push(heir@));
        }
        Ok(())
    }

    /// The day on which the task `task_id` comes back, seen from the day
    /// `base`, when it is given the status `new_status`: as its repeat
    /// settings say, and none where there is no such task, where the task
    /// does not become `Done`, or where it does not repeat.
    pub fn plan_successor(&self, task_id: &str, new_status: Status, base: CalendarDay) -> (day:
        Option<CalendarDay>)
        requires
            self.wf(),
            base.days <= i32::MAX - 14,
        ensures
            match day {
                Some(d) => {
                    &&& self@.has_task(task_id@)
                    &&& self@.task_with(task_id@).comes_back(new_status)
                    &&& next_occurrence_day(
                        self@.task_with(task_id@).repeat_mode,
                        self@.task_with(task_id@).repeat_days_mask,
                        base.days as int,
                    ) == Some(d.days as int)
                },
                None => {
                    ||| !self@.has_task(task_id@)
                    ||| !self@.task_with(task_id@).comes_back(new_status)
                    ||| next_occurrence_day(
                        self@.task_with(task_id@).repeat_mode,
                        self@.task_with(task_id@).repeat_days_mask,
                        base.days as int,
                    ) is None
                },
            },
    {
        let key: String = task_id.to_owned();
        match self.find_task(&key) {
            None => None,
            Some(i) => {
                proof {
                    lemma_task_index(self@, i as int);
                }
                match new_status {
                    Status::Done => next_occurrence(
                        &self.tasks[i].repeat_mode,
                        self.tasks[i].repeat_days_mask,
                        base,
                    ),
                    _ => None,
                }
            },
        }
    }

    /// The deadline of the task `task_id`, if there is such a task and it
    /// has one.
    pub fn deadline_of(&self, task_id: &str) -> (deadline: Option<i64>)
        requires
            self.wf(),
        ensures
            deadline == if self@.has_task(task_id@) {
                self@.task_with(task_id@).deadline
            } else {
                None
            },
    {
        let key: String = task_id.to_owned();
        match self.find_task(&key) {
            None => None,
            Some(i) => {
                proof {
                    lemma_task_index(self@, i as int);
                }
                self.tasks[i].deadline
            },
        }
    }

    /// Gives the task `task_id` the status `new_status` now; see
    /// [`AppDatabase::set_status_at`]. A task that becomes `Done` and
    /// repeats gets a successor under an identity that is drawn for it:
    /// due on the day on which the task comes back, counted from the day
    /// of its deadline on the machine's wall clock (from today, without a
    /// deadline), at the time of day of its deadline (at nine, without
    /// one). Whatever the clock, the time zone and the draw give, the
    /// outcome on success is that of setting the status at some instant
    /// with the successor that is owed for some moment counted from; a
    /// task that repeats daily or on weekdays is owed one whatever that
    /// moment is.
    ///
    /// Refused with `NotFound` where there is no such task. Where a
    /// successor is called for, refused also with `NoLocalTime` where the
    /// wall clock gives no day to count from or never shows the time of the
    /// new deadline, with `OutOfRange` where the day to count from is too
    /// late for the calendar, and with `DuplicateId` should the identity
    /// drawn be taken. A refused request changes nothing.
    pub fn update_task_status(&mut self, task_id: &str, new_status: Status) -> (r: Result<
        (),
        DbError,
    >)
        requires
            old(self).wf(),
        ensures
            final(self).wf(),
            match r {
                Ok(_) => exists|now: i64, from: LocalMoment, successor: Option<SuccessorView>| #[trigger]
                    old(self)@.updates_status(
                        final(self)@,
                        task_id@,
                        new_status,
                        now,
                        from,
                        successor,
                    ),
                Err(e) => {
                    &&& final(self)@ == old(self)@
                    &&& e == DbError::NotFound <==> !old(self)@.has_task(task_id@)
                    &&& e != DbError::NotFound ==> old(self)@.task_with(task_id@).comes_back(
                        new_status,
                    )
                },
            },
            old(self)@.has_task(task_id@) && !old(self)@.task_with(task_id@).comes_back(new_status)
                ==> r is Ok && final(self)@.tasks.len() == old(self)@.tasks.len(),
            r is Ok && old(self)@.task_with(task_id@).surely_comes_back(new_status) ==> old(
                self,
            )@.completed_with_successor(final(self)@, task_id@),
    {
        let now: i64 = now_millis();
        match self.comes_back(task_id, new_status) {
            None => {
                return Err(DbError::NotFound);
            },
            Some(false) => {
                let r = self.set_status_at(task_id, new_status, now, None);
                proof {
                    assert(successor_view(None) == None::<SuccessorView>);
                    let any = LocalMoment { day: CalendarDay { days: 0 }, hour: 0, minute: 0 };
                    assert(old(self)@.updates_status(self@, task_id@, new_status, now, any, None));
                }
                return r;
            },
            Some(true) => {},
        }
        let deadline: Option<i64> = self.deadline_of(task_id);
        let shown: Option<LocalMoment> = match deadline {
            Some(d) => local_moment(d),
            None => None,
        };
        let today: Option<LocalMoment> = match shown {
            Some(_) => None,
            None => local_moment(now),
        };
        let from: LocalMoment = match count_from(shown, today) {
            Some(m) => m,
            None => {
                return Err(DbError::NoLocalTime);
            },
        };
        assert(counts_from(deadline, now, from)) by {
            if shown is None {
                assert(today->0.shown_at(now));
            }
        }
        if from.day.days > i32::MAX - 14 {
            return Err(DbError::OutOfRange);
        }
        match self.plan_successor(task_id, new_status, from.day) {
            None => {
                let r = self.set_status_at(task_id, new_status, now, None);
                proof {
                    assert(successor_view(None) == None::<SuccessorView>);
                    if r is Ok {
                        assert(old(self)@.updates_status(
                            self@,
                            task_id@,
                            new_status,
                            now,
                            from,
                            None,
                        ));
                    }
                }
                r
            },
            Some(day) => {
                match local_date_time_to_ms(day, from.hour, from.minute) {
                    None => Err(DbError::NoLocalTime),
                    Some(ms) => {
                        let next = Successor { id: fresh_id(), deadline: ms };
                        let ghost heir: SuccessorView = next@;
                        let r = self.set_status_at(task_id, new_status, now, Some(next));
                        proof {
                            if r is Ok {
                                assert(old(self)@.updates_status(
                                    self@,
                                    task_id@,
                                    new_status,
                                    now,
                                    from,
                                    Some(heir),
                                ));
                                lemma_completing_repeating_task(old(self)@, task_id@, now, heir);
                                assert(old(self)@.tasks[old(self)@.task_index(task_id@)].id
                                    == task_id@);
                                assert(old(self)@.completed_with_successor(self@, task_id@));
                            }
                        }
                        r
                    },
                }
            },
        }
    }

    /// Whether giving the task `task_id` the status `new_status` calls for
    /// a successor; `None` where there is no such task.
    pub fn comes_back(&self, task_id: &str, new_status: Status) -> (r: Option<bool>)
        requires
            self.wf(),
        ensures
            match r {
                Some(b) => self@.has_task(task_id@) && b == self@.task_with(task_id@).comes_back(
                    new_status,
                ),
                None => !self@.has_task(task_id@),
            },
    {
        let key: String = task_id.to_owned();
        match self.find_task(&key) {
            None => None,
            Some(i) => {
                proof {
                    lemma_task_index(self@, i as int);
                }
                match new_status {
                    Status::Done => Some(self.tasks[i].repeat_mode.is_some()),
                    _ => Some(false),
                }
            },
        }
    }
}

/// The task found at a place is the task with its identity.
pub proof fn lemma_task_index(v: DbView, at: int)
    requires
        v.wf(),
        0 <= at < v.tasks.len(),
    ensures
        v.has_task(v.tasks[at].id),
        v.task_index(v.tasks[at].id) == at,
        v.task_with(v.tasks[at].id) == v.tasks[at],
{
    let id = v.tasks[at].id;
    let k = v.task_index(id);
    if k < at {
        assert(v.tasks[k].id != v.tasks[at].id);
    } else if k > at {
        assert(v.tasks[at].id != v.tasks[k].id);
    }
}

/// Completing a task that repeats, with a successor at hand whose identity
/// is new: the store takes it; there is exactly one task more, the
/// successor, which is `Todo` and due at the deadline handed over; the task
/// itself is `Done`, completed at `now`, and has lost its repeat settings;
/// every other task is as it was.
pub proof fn lemma_completing_repeating_task(v: DbView, id: Seq<char>, now: i64, next: SuccessorView)
    requires
        v.wf(),
        v.has_task(id),
        v.task_with(id).repeat_mode is Some,
        next.id.len() > 0,
        !v.has_task(next.id),
    ensures
        v.refuses_status(id, Status::Done, Some(next)) is None,
        v.with_status_set(id, Status::Done, now, Some(next)).tasks.len() == v.tasks.len() + 1,
        v.with_status_set(id, Status::Done, now, Some(next)).tasks.last() == v.task_with(
            id,
        ).successor(next, now),
        v.task_with(id).successor(next, now).status == Status::Todo,
        v.task_with(id).successor(next, now).deadline == Some(next.deadline),
        forall|i: int|
            0 <= i < v.tasks.len() ==> #[trigger] v.with_status_set(
                id,
                Status::Done,
                now,
                Some(next),
            ).tasks[i] == if v.tasks[i].id == id {
                TaskView {
                    status: Status::Done,
                    completed_at: Some(now),
                    remind_at: None,
                    repeat_mode: None,
                    repeat_days_mask: None,
                    ..v.tasks[i]
                }
            } else {
                v.tasks[i]
            },
{
}

/// A task that repeats daily comes back on the day after the day counted
/// from.
pub proof fn lemma_daily_comes_back_next_day(mask: Option<i64>, days: int)
    ensures
        next_occurrence_day(Some("daily"@), mask, days) == Some(days + 1),
{
}

/// Giving a task that does not come back a status changes that task alone
/// and adds none, whatever successor is at hand.
pub proof fn lemma_status_without_successor(
    v: DbView,
    id: Seq<char>,
    status: Status,
    now: i64,
    next: Option<SuccessorView>,
)
    requires
        v.has_task(id) ==> !v.task_with(id).comes_back(status),
    ensures
        v.with_status_set(id, status, now, next) == v.with_task_changed(
            id,
            TaskChange::Status(status, now),
        ),
{
}

/// Completing a task that repeats daily or on weekdays: whatever moment
/// its next day is counted from, it gets its successor, and the store is
/// then as [`DbView::completed_with_successor`] says: exactly one task
/// more, and the completed task without repeat settings.
pub proof fn lemma_update_spawns_successor(
    v: DbView,
    w: DbView,
    id: Seq<char>,
    status: Status,
    now: i64,
    from: LocalMoment,
    successor: Option<SuccessorView>,
)
    requires
        v.wf(),
        v.updates_status(w, id, status, now, from, successor),
        v.task_with(id).surely_comes_back(status),
    ensures
        successor is Some,
        v.completed_with_successor(w, id),
        w.tasks.last().deadline == Some(successor->0.deadline),
{
    lemma_completing_repeating_task(v, id, now, successor->0);
    assert(v.tasks[v.task_index(id)].id == id);
}

/// Completing a task that repeats daily and has a deadline within reach of
/// the calendar: the deadline of its successor is less than a day from the
/// wall-clock time of the old deadline moved on by one day, and so lies
/// within two days and a minute of the old deadline plus one day. (Where
/// the wall clock keeps its distance from the clock of the Unix epoch over
/// that day, and the deadline falls on a full minute, it is the old
/// deadline plus one day; that is the time zone's to say.)
pub proof fn lemma_daily_successor_deadline(
    v: DbView,
    w: DbView,
    id: Seq<char>,
    now: i64,
    from: LocalMoment,
    successor: Option<SuccessorView>,
)
    requires
        v.wf(),
        v.updates_status(w, id, Status::Done, now, from, successor),
        v.task_with(id).repeat_mode == Some("daily"@),
        v.task_with(id).deadline is Some,
        within_reach(v.task_with(id).deadline->0),
    ensures
        successor is Some,
        from.shown_at(v.task_with(id).deadline->0),
        within_a_day(successor->0.deadline, from.wall() + 86400000),
        -172860000 < successor->0.deadline - (v.task_with(id).deadline->0 + 86400000) < 172800000,
        w.tasks.last().deadline == Some(successor->0.deadline),
{
    lemma_update_spawns_successor(v, w, id, Status::Done, now, from, successor);
}

} // verus!
