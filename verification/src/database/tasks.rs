//! Tasks: creating, editing, archiving, ordering and deleting them.

use crate::calendar::now_millis;
use crate::database::{
    lemma_task_added, lemma_task_row_changed, remind_for, remind_time, AppDatabase, DbView,
    TaskChange,
};
use crate::error::DbError;
use crate::ident::{fresh_id, identity_for};
use crate::database::views;
use crate::models::{
    copy_opt_text, copy_texts, NewTask, NewTaskView, Priority, Status, Subtask, SubtaskView, Task,
    TaskView,
};
use crate::tables::{
    lemma_filter_all, lemma_filter_keeps_order, lemma_filter_one_out, lemma_filter_push,
};
use vstd::prelude::*;

verus! {

/// The instant, in milliseconds, that lies `minutes` minutes after `now`.
pub open spec fn snooze_instant(now: i64, minutes: i64) -> int {
    now + minutes * 60000
}

impl NewTaskView {
    /// The task that is created from what was handed over: it gets the
    /// identity `id`, starts as `Todo` at the instant `now`, and its
    /// reminder is due `lead_minutes` before its deadline, though not
    /// before `now`. The status, the time of creation and the reminder
    /// that were handed over are not taken.
    pub open spec fn created(self, id: Seq<char>, lead_minutes: u32, now: i64) -> TaskView {
        TaskView {
            id,
            project_id: self.project_id,
            title: self.title,
            description: self.description,
            priority: self.priority,
            status: Status::Todo,
            created_at: now,
            completed_at: None,
            deadline: self.deadline,
            estimated_minutes: self.estimated_minutes,
            actual_minutes: self.actual_minutes,
            tags: self.tags,
            remind_at: remind_for(self.deadline, lead_minutes, now),
            reminded_at: None,
            repeat_mode: self.repeat_mode,
            repeat_days_mask: self.repeat_days_mask,
            is_archived: false,
            sort_order: 0,
        }
    }
}

impl DbView {
    /// The store with one more task.
    pub open spec fn with_task(self, t: TaskView) -> DbView {
        DbView { tasks: self.tasks.push(t), ..self }
    }

    /// Why the store refuses a new task with the identity `id`, if it does:
    /// an empty identity or title, an identity that a task has already, or
    /// a project that is not there; asked in this order.
    pub open spec fn refuses_task(self, task: NewTaskView, id: Seq<char>) -> Option<DbError> {
        if id.len() == 0 || task.title.len() == 0 {
            Some(DbError::EmptyField)
        } else if self.has_task(id) {
            Some(DbError::DuplicateId)
        } else if task.project_id matches Some(p) && !self.has_project(p) {
            Some(DbError::UnknownProject)
        } else {
            None
        }
    }

    /// Whether `after` and `r` are what comes of asking the store to create
    /// a task under the identity `id` at the instant `now`: the task of
    /// [`NewTaskView::created`] is added and handed back, or the store
    /// refuses as [`DbView::refuses_task`] says and stays as it is.
    pub open spec fn adds_task(
        self,
        after: DbView,
        task: NewTaskView,
        id: Seq<char>,
        now: i64,
        r: Result<Task, DbError>,
    ) -> bool {
        match r {
            Ok(t) => {
                &&& self.refuses_task(task, id) is None
                &&& t@ == task.created(id, self.lead_minutes(), now)
                &&& after == self.with_task(t@)
            },
            Err(e) => self.refuses_task(task, id) == Some(e) && after == self,
        }
    }

    /// Whether `after` and `r` are what comes of asking the store, at the
    /// instant `now`, to put the reminder of the task `id` off by `minutes`
    /// minutes: the reminder is scheduled for [`snooze_instant`], or the
    /// store refuses with `OutOfRange`, because that instant cannot be
    /// written in milliseconds, and stays as it is.
    pub open spec fn snoozes(
        self,
        after: DbView,
        id: Seq<char>,
        minutes: i64,
        now: i64,
        r: Result<(), DbError>,
    ) -> bool {
        match r {
            Ok(_) => {
                &&& i64::MIN <= snooze_instant(now, minutes) <= i64::MAX
                &&& after == self.with_task_changed(
                    id,
                    TaskChange::RemindAt(Some(snooze_instant(now, minutes) as i64)),
                )
            },
            Err(e) => {
                &&& e == DbError::OutOfRange
                &&& !(i64::MIN <= snooze_instant(now, minutes) <= i64::MAX)
                &&& after == self
            },
        }
    }

    /// The store without the task `id` and without its subtasks. The focus
    /// sessions stay.
    pub open spec fn without_task(self, id: Seq<char>) -> DbView {
        DbView {
            tasks: self.tasks.filter(|t: TaskView| t.id != id),
            subtasks: self.subtasks.filter(|s: SubtaskView| s.task_id != id),
            ..self
        }
    }

    /// The store in which each task named in `ids` has the place of its
    /// name in the list as its place in the manual order; a task named
    /// twice has the later place. Names of tasks that are not there are
    /// passed over.
    pub open spec fn with_tasks_ordered(self, ids: Seq<Seq<char>>) -> DbView
        decreases ids.len(),
    {
        if ids.len() == 0 {
            self
        } else {
            self.with_tasks_ordered(ids.drop_last()).with_task_changed(
                ids.last(),
                TaskChange::SortOrder((ids.len() - 1) as i32),
            )
        }
    }
}

impl AppDatabase {
    /// Creates a task with the identity `id` at the instant `now`; see
    /// [`NewTaskView::created`] for what it holds. Refused as
    /// [`DbView::refuses_task`] says.
    pub fn add_task_at(&mut self, task: &NewTask, id: String, now: i64) -> (r: Result<Task, DbError>)
        requires
            old(self).wf(),
        ensures
            final(self).wf(),
            old(self)@.adds_task(final(self)@, task@, id@, now, r),
    {
        if id.as_str().is_empty() || task.title.as_str().is_empty() {
            return Err(DbError::EmptyField);
        }
        if self.find_task(&id).is_some() {
            return Err(DbError::DuplicateId);
        }
        match &task.project_id {
            Some(p) => {
                if self.find_project(p).is_none() {
                    return Err(DbError::UnknownProject);
                }
            },
            None => {},
        }
        let created = Task {
            id,
            project_id: copy_opt_text(&task.project_id),
            title: task.title.clone(),
            description: copy_opt_text(&task.description),
            priority: task.priority,
            status: Status::Todo,
            created_at: now,
            completed_at: None,
            deadline: task.deadline,
            estimated_minutes: task.estimated_minutes,
            actual_minutes: task.actual_minutes,
            tags: copy_texts(&task.tags),
            remind_at: remind_time(task.deadline, self.lead_minutes(), now),
            reminded_at: None,
            repeat_mode: copy_opt_text(&task.repeat_mode),
            repeat_days_mask: task.repeat_days_mask,
            is_archived: false,
            sort_order: 0,
        };
        let copy: Task = created.clone();
        proof {
            lemma_task_added(self@, created@);
        }
        self.tasks.push(created);
        assert(self@.tasks =~= old(self)@.tasks.push(copy@));
        Ok(copy)
    }

    /// Creates a task now; see [`AppDatabase::add_task_at`]. A task handed
    /// over with an empty identity has one drawn for it. Whatever the clock
    /// says and whichever identity is drawn, the outcome is that of
    /// creating the task under that identity at that instant. Refused with
    /// `EmptyField` for an empty title, with `DuplicateId` where a task has
    /// the identity already, and with `UnknownProject` where the task names
    /// a project that is not there.
    pub fn add_task(&mut self, task: &NewTask) -> (r: Result<Task, DbError>)
        requires
            old(self).wf(),
        ensures
            final(self).wf(),
            exists|id: Seq<char>, now: i64|
                identity_for(task@.id, id) && #[trigger] old(self)@.adds_task(
                    final(self)@,
                    task@,
                    id,
                    now,
                    r,
                ),
            task@.id.len() > 0 && old(self)@.refuses_task(task@, task@.id) is None ==> r is Ok,
            task@.id.len() > 0 && old(self)@.refuses_task(task@, task@.id) is Some ==> r is Err,
            task@.title.len() == 0 ==> r is Err,
            old(self)@.tasks.len() == 0 && task@.title.len() > 0 && (task@.project_id matches Some(p)
                ==> old(self)@.has_project(p)) ==> r is Ok,
    {
        let id: String = if task.id.as_str().is_empty() {
            fresh_id()
        } else {
            task.id.clone()
        };
        let now: i64 = now_millis();
        self.add_task_at(task, id, now)
    }

    /// Gives the task `id` the title `title`. With no such task the store
    /// stays as it is.
    pub fn update_task_title(&mut self, id: &str, title: String) -> (r: Result<(), DbError>)
        requires
            old(self).wf(),
        ensures
            final(self).wf(),
            r is Ok,
            final(self)@ == old(self)@.with_task_changed(id@, TaskChange::Title(title@)),
    {
        let key: String = id.to_owned();
        let found: Option<usize> = self.find_task(&key);
        let ghost change = TaskChange::Title(title@);
        if let Some(i) = found {
            self.tasks[i].title = title;
            assert(self@.tasks =~= old(self)@.tasks.update(
                i as int,
                old(self)@.tasks[i as int].changed(change),
            ));
        }
        proof {
            lemma_task_row_changed(old(self)@, self@, found, id@, change);
        }
        Ok(())
    }

    /// Gives the task `id` the priority `priority`. With no such task the
    /// store stays as it is.
    pub fn update_task_priority(&mut self, id: &str, priority: Priority) -> (r: Result<(), DbError>)
        requires
            old(self).wf(),
        ensures
            final(self).wf(),
            r is Ok,
            final(self)@ == old(self)@.with_task_changed(id@, TaskChange::Priority(priority)),
    {
        let key: String = id.to_owned();
        let found: Option<usize> = self.find_task(&key);
        let ghost change = TaskChange::Priority(priority);
        if let Some(i) = found {
            self.tasks[i].priority = priority;
            assert(self@.tasks =~= old(self)@.tasks.update(
                i as int,
                old(self)@.tasks[i as int].changed(change),
            ));
        }
        proof {
            lemma_task_row_changed(old(self)@, self@, found, id@, change);
        }
        Ok(())
    }

    /// Gives the task `id` the deadline `deadline` at the instant `now`. Its
    /// reminder is then due as many minutes before the deadline as the
    /// settings say, though not before `now`, and what was reminded before
    /// no longer counts; without a deadline there is no reminder. With no
    /// such task the store stays as it is.
    pub fn update_task_deadline_at(&mut self, id: &str, deadline: Option<i64>, now: i64) -> (r:
        Result<(), DbError>)
        requires
            old(self).wf(),
        ensures
            final(self).wf(),
            r is Ok,
            final(self)@ == old(self)@.with_task_changed(
                id@,
                TaskChange::Deadline(deadline, remind_for(deadline, old(self)@.lead_minutes(), now)),
            ),
    {
        let key: String = id.to_owned();
        let found: Option<usize> = self.find_task(&key);
        let remind_at: Option<i64> = remind_time(deadline, self.lead_minutes(), now);
        let ghost change = TaskChange::Deadline(deadline, remind_at);
        if let Some(i) = found {
            self.tasks[i].deadline = deadline;
            self.tasks[i].remind_at = remind_at;
            self.tasks[i].reminded_at = None;
            assert(self@.tasks =~= old(self)@.tasks.update(
                i as int,
                old(self)@.tasks[i as int].changed(change),
            ));
        }
        proof {
            lemma_task_row_changed(old(self)@, self@, found, id@, change);
        }
        Ok(())
    }

    /// Gives the task `id` the deadline `deadline` now; see
    /// [`AppDatabase::update_task_deadline_at`]. Whatever the clock says, the
    /// task has the deadline, no reminder that counts as fired, and a
    /// reminder exactly where it has a deadline.
    pub fn update_task_deadline(&mut self, id: &str, deadline: Option<i64>) -> (r: Result<
        (),
        DbError,
    >)
        requires
            old(self).wf(),
        ensures
            final(self).wf(),
            r is Ok,
            exists|now: i64|
                final(self)@ == old(self)@.with_task_changed(
                    id@,
                    TaskChange::Deadline(
                        deadline,
                        remind_for(deadline, old(self)@.lead_minutes(), now),
                    ),
                ),
    {
        let now: i64 = now_millis();
        self.update_task_deadline_at(id, deadline, now)
    }

    /// Gives the task `id` the tags `tags`. With no such task the store stays
    /// as it is.
    pub fn update_task_tags(&mut self, id: &str, tags: Vec<String>) -> (r: Result<(), DbError>)
        requires
            old(self).wf(),
        ensures
            final(self).wf(),
            r is Ok,
            final(self)@ == old(self)@.with_task_changed(id@, TaskChange::Tags(tags.deep_view())),
    {
        let key: String = id.to_owned();
        let found: Option<usize> = self.find_task(&key);
        let ghost change = TaskChange::Tags(tags.deep_view());
        if let Some(i) = found {
            self.tasks[i].tags = tags;
            assert(self@.tasks =~= old(self)@.tasks.update(
                i as int,
                old(self)@.tasks[i as int].changed(change),
            ));
        }
        proof {
            lemma_task_row_changed(old(self)@, self@, found, id@, change);
        }
        Ok(())
    }

    /// Gives the task `id` the repeat mode `mode` and the weekly pattern
    /// `mask`. With no such task the store stays as it is.
    pub fn update_task_repeat(&mut self, id: &str, mode: Option<String>, mask: Option<i64>) -> (r:
        Result<(), DbError>)
        requires
            old(self).wf(),
        ensures
            final(self).wf(),
            r is Ok,
            final(self)@ == old(self)@.with_task_changed(
                id@,
                TaskChange::Repeat(mode.deep_view(), mask),
            ),
    {
        let key: String = id.to_owned();
        let found: Option<usize> = self.find_task(&key);
        let ghost change = TaskChange::Repeat(mode.deep_view(), mask);
        if let Some(i) = found {
            self.tasks[i].repeat_mode = mode;
            self.tasks[i].repeat_days_mask = mask;
            assert(self@.tasks =~= old(self)@.tasks.update(
                i as int,
                old(self)@.tasks[i as int].changed(change),
            ));
        }
        proof {
            lemma_task_row_changed(old(self)@, self@, found, id@, change);
        }
        Ok(())
    }

    /// Schedules the reminder of the task `id` for `remind_at`, or takes it
    /// away. What was reminded before no longer counts. With no such task
    /// the store stays as it is.
    pub fn set_task_remind_at(&mut self, id: &str, remind_at: Option<i64>) -> (r: Result<
        (),
        DbError,
    >)
        requires
            old(self).wf(),
        ensures
            final(self).wf(),
            r is Ok,
            final(self)@ == old(self)@.with_task_changed(id@, TaskChange::RemindAt(remind_at)),
    {
        let key: String = id.to_owned();
        let found: Option<usize> = self.find_task(&key);
        let ghost change = TaskChange::RemindAt(remind_at);
        if let Some(i) = found {
            self.tasks[i].remind_at = remind_at;
            self.tasks[i].reminded_at = None;
            assert(self@.tasks =~= old(self)@.tasks.update(
                i as int,
                old(self)@.tasks[i as int].changed(change),
            ));
        }
        proof {
            lemma_task_row_changed(old(self)@, self@, found, id@, change);
        }
        Ok(())
    }

    /// Puts the reminder of the task `id` off to `minutes` minutes after the
    /// instant `now`. Refused with `OutOfRange`, whether or not there is
    /// such a task, where that instant cannot be written in milliseconds.
    /// With no such task the store stays as it is.
    pub fn snooze_task_at(&mut self, id: &str, minutes: i64, now: i64) -> (r: Result<(), DbError>)
        requires
            old(self).wf(),
        ensures
            final(self).wf(),
            old(self)@.snoozes(final(self)@, id@, minutes, now, r),
    {
        let wide: i128 = now as i128 + minutes as i128 * 60000;
        if wide < i64::MIN as i128 || wide > i64::MAX as i128 {
            return Err(DbError::OutOfRange);
        }
        self.set_task_remind_at(id, Some(wide as i64))
    }

    /// Puts the reminder of the task `id` off to `minutes` minutes from
    /// now; see [`AppDatabase::snooze_task_at`]. Whatever the clock says,
    /// the outcome is that of snoozing at that instant: the reminder is
    /// scheduled `minutes` minutes after it, or the request is refused with
    /// `OutOfRange` because that instant cannot be written in milliseconds.
    /// A snooze of no minutes is never refused.
    pub fn snooze_task(&mut self, id: &str, minutes: i64) -> (r: Result<(), DbError>)
        requires
            old(self).wf(),
        ensures
            final(self).wf(),
            exists|now: i64| #[trigger] old(self)@.snoozes(final(self)@, id@, minutes, now, r),
            minutes == 0 ==> r is Ok,
    {
        let now: i64 = now_millis();
        self.snooze_task_at(id, minutes, now)
    }

    /// Puts the task `id` into the archive. With no such task the store
    /// stays as it is.
    pub fn archive_task(&mut self, id: &str) -> (r: Result<(), DbError>)
        requires
            old(self).wf(),
        ensures
            final(self).wf(),
            r is Ok,
            final(self)@ == old(self)@.with_task_changed(id@, TaskChange::Archived(true)),
    {
        let key: String = id.to_owned();
        let found: Option<usize> = self.find_task(&key);
        let ghost change = TaskChange::Archived(true);
        if let Some(i) = found {
            self.tasks[i].is_archived = true;
            assert(self@.tasks =~= old(self)@.tasks.update(
                i as int,
                old(self)@.tasks[i as int].changed(change),
            ));
        }
        proof {
            lemma_task_row_changed(old(self)@, self@, found, id@, change);
        }
        Ok(())
    }

    /// Takes the task `id` out of the archive. With no such task the store
    /// stays as it is.
    pub fn unarchive_task(&mut self, id: &str) -> (r: Result<(), DbError>)
        requires
            old(self).wf(),
        ensures
            final(self).wf(),
            r is Ok,
            final(self)@ == old(self)@.with_task_changed(id@, TaskChange::Archived(false)),
    {
        let key: String = id.to_owned();
        let found: Option<usize> = self.find_task(&key);
        let ghost change = TaskChange::Archived(false);
        if let Some(i) = found {
            self.tasks[i].is_archived = false;
            assert(self@.tasks =~= old(self)@.tasks.update(
                i as int,
                old(self)@.tasks[i as int].changed(change),
            ));
        }
        proof {
            lemma_task_row_changed(old(self)@, self@, found, id@, change);
        }
        Ok(())
    }

    /// Gives the task `id` the place `place` in the manual order.
    fn place_task(&mut self, id: &String, place: i32)
        requires
            old(self).wf(),
        ensures
            final(self).wf(),
            final(self)@ == old(self)@.with_task_changed(id@, TaskChange::SortOrder(place)),
    {
        let found: Option<usize> = self.find_task(id);
        let ghost change = TaskChange::SortOrder(place);
        if let Some(i) = found {
            self.tasks[i].sort_order = place;
            assert(self@.tasks =~= old(self)@.tasks.update(
                i as int,
                old(self)@.tasks[i as int].changed(change),
            ));
        }
        proof {
            lemma_task_row_changed(old(self)@, self@, found, id@, change);
        }
    }

    /// Rewrites the manual order: each task named in `task_ids` gets the
    /// place of its name in the list, counted from 0. Names of tasks that
    /// are not there are passed over.
    pub fn reorder_tasks(&mut self, task_ids: &[String]) -> (r: Result<(), DbError>)
        requires
            old(self).wf(),
            task_ids@.len() <= i32::MAX,
        ensures
            final(self).wf(),
            r is Ok,
            final(self)@ == old(self)@.with_tasks_ordered(task_ids.deep_view()),
    {
        let ghost ids: Seq<Seq<char>> = task_ids.deep_view();
        let mut i: usize = 0;
        assert(ids.take(0) =~= Seq::<Seq<char>>::empty());
        while i < task_ids.len()
            invariant
                i <= task_ids.len(),
                task_ids@.len() <= i32::MAX,
                ids == task_ids.deep_view(),
                self.wf(),
                self@ == old(self)@.with_tasks_ordered(ids.take(i as int)),
            decreases task_ids.len() - i,
        {
            assert(ids.take(i + 1).drop_last() =~= ids.take(i as int));
            assert(ids.take(i + 1).last() == task_ids@[i as int]@);
            self.place_task(&task_ids[i], i as i32);
            i += 1;
        }
        assert(ids.take(task_ids.len() as int) =~= ids);
        Ok(())
    }

    /// Deletes the task `id` and, with it, its subtasks. The focus sessions
    /// stay. With no such task the store stays as it is.
    pub fn delete_task(&mut self, id: &str) -> (r: Result<(), DbError>)
        requires
            old(self).wf(),
        ensures
            final(self).wf(),
            r is Ok,
            final(self)@ == old(self)@.without_task(id@),
            !old(self)@.has_task(id@) ==> final(self)@ == old(self)@,
    {
        let key: String = id.to_owned();
        let ghost keep_task = |t: TaskView| t.id != id@;
        let ghost keep_subtask = |s: SubtaskView| s.task_id != id@;
        match self.find_task(&key) {
            None => {
                proof {
                    lemma_filter_all(self@.tasks, keep_task);
                    assert forall|i: int| 0 <= i < self@.subtasks.len() implies keep_subtask(
                        #[trigger] self@.subtasks[i],
                    ) by {
                        assert(self@.has_task(self@.subtasks[i].task_id));
                    }
                    lemma_filter_all(self@.subtasks, keep_subtask);
                }
            },
            Some(at) => {
                let ghost before: DbView = self@;
                let mut kept: Vec<Subtask> = Vec::new();
                let mut rest: Vec<Subtask> = Vec::new();
                std::mem::swap(&mut rest, &mut self.subtasks);
                let mut i: usize = 0;
                assert(views(rest@).take(0) =~= Seq::<SubtaskView>::empty());
                proof {
                    lemma_filter_all(Seq::<SubtaskView>::empty(), keep_subtask);
                }
                while i < rest.len()
                    invariant
                        i <= rest.len(),
                        key@ == id@,
                        views(rest@) == before.subtasks,
                        keep_subtask == |s: SubtaskView| s.task_id != id@,
                        views(kept@) == before.subtasks.take(i as int).filter(keep_subtask),
                    decreases rest.len() - i,
                {
                    proof {
                        assert(before.subtasks.take(i + 1) =~= before.subtasks.take(i as int).push(
                            before.subtasks[i as int],
                        ));
                        lemma_filter_push(
                            before.subtasks.take(i as int),
                            before.subtasks[i as int],
                            keep_subtask,
                        );
                    }
                    if rest[i].task_id != key {
                        let ghost prior = views(kept@);
                        kept.push(rest[i].clone());
                        assert(views(kept@) =~= prior.push(before.subtasks[i as int]));
                    }
                    i += 1;
                }
                assert(before.subtasks.take(rest.len() as int) =~= before.subtasks);
                self.subtasks = kept;
                self.tasks.remove(at);
                proof {
                    lemma_filter_one_out(before.tasks, keep_task, at as int);
                    assert(self@.tasks =~= before.tasks.remove(at as int));
                    lemma_task_removed(before, self@, at as int);
                }
            },
        }
        Ok(())
    }
}

/// A store stays well formed when a task leaves it together with its
/// subtasks.
proof fn lemma_task_removed(v: DbView, w: DbView, at: int)
    requires
        v.wf(),
        0 <= at < v.tasks.len(),
        w == (DbView {
            tasks: v.tasks.remove(at),
            subtasks: v.subtasks.filter(|s: SubtaskView| s.task_id != v.tasks[at].id),
            ..v
        }),
    ensures
        w.wf(),
{
    let id = v.tasks[at].id;
    let keep = |s: SubtaskView| s.task_id != id;
    lemma_filter_keeps_order(v.subtasks, keep);
    assert forall|a: int, b: int| 0 <= a < b < w.tasks.len() implies (#[trigger] w.tasks[a]).id != (
    #[trigger] w.tasks[b]).id by {
        let a0 = if a < at { a } else { a + 1 };
        let b0 = if b < at { b } else { b + 1 };
        assert(v.tasks[a0].id != v.tasks[b0].id);
    }
    assert forall|a: int, b: int| 0 <= a < b < w.subtasks.len() implies (
    #[trigger] w.subtasks[a]).id != (#[trigger] w.subtasks[b]).id by {
        let (a0, b0) = choose|a0: int, b0: int|
            0 <= a0 < b0 < v.subtasks.len() && v.subtasks[a0] == w.subtasks[a] && v.subtasks[b0]
                == w.subtasks[b];
        assert(v.subtasks[a0].id != v.subtasks[b0].id);
    }
    assert forall|i: int| 0 <= i < w.subtasks.len() implies w.has_task(
        (#[trigger] w.subtasks[i]).task_id,
    ) by {
        let s = w.subtasks[i];
        assert(keep(s));
        let k = choose|k: int| 0 <= k < v.subtasks.len() && v.subtasks[k] == s;
        assert(v.has_task(v.subtasks[k].task_id));
        let c = choose|c: int| 0 <= c < v.tasks.len() && #[trigger] v.tasks[c].id == s.task_id;
        if c < at {
            assert(w.tasks[c].id == s.task_id);
        } else {
            assert(c != at);
            assert(w.tasks[c - 1].id == s.task_id);
        }
    }
    assert forall|i: int| 0 <= i < w.tasks.len() implies (#[trigger] w.tasks[i]).lifecycle_ok() && (
    match w.tasks[i].project_id {
        Some(q) => w.has_project(q),
        None => true,
    }) by {
        let i0 = if i < at { i } else { i + 1 };
        assert(w.tasks[i] == v.tasks[i0]);
    }
}

} // verus!
