//! Listing tasks, and the reminders that are due.

use crate::database::{lemma_task_row_changed, views, AppDatabase, DbView, TaskChange};
use crate::error::DbError;
use crate::models::{same_opt_text, Status, Task, TaskView};
use crate::sorting::{stable_order, SortKey};
use crate::tables::{lemma_filter_all, lemma_filter_push, listed};
use vstd::prelude::*;

verus! {

/// How many reminders are handed out at once, at most.
pub const REMINDER_BATCH: usize = 20;

/// The key by which tasks are listed: the higher priority first; then the
/// earlier deadline, tasks without one last; then the younger task.
pub open spec fn task_key(t: TaskView) -> SortKey {
    SortKey {
        first: (2 - t.priority.code()) as i64,
        second: if t.deadline is Some {
            0
        } else {
            1
        },
        third: match t.deadline {
            Some(d) => d,
            None => 0,
        },
        fourth: (-1 - t.created_at) as i64,
    }
}

/// The keys of the tasks of a list, row by row.
pub open spec fn task_keys(tasks: Seq<TaskView>) -> Seq<SortKey> {
    Seq::new(tasks.len(), |i: int| task_key(tasks[i]))
}

/// Whether a task passes the filters: it has the status, if one is asked
/// for, and belongs to the project, if one is asked for.
pub open spec fn task_matches(t: TaskView, status: Option<Status>, project: Option<Seq<char>>)
    -> bool {
    &&& status matches Some(s) ==> t.status == s
    &&& project matches Some(p) ==> t.project_id == Some(p)
}

/// How many of `count` rows a limit lets through: all of them where there
/// is no limit or the limit is negative.
pub open spec fn let_through(limit: Option<i32>, count: nat) -> nat {
    match limit {
        Some(l) => if 0 <= l < count {
            l as nat
        } else {
            count
        },
        None => count,
    }
}

/// Whether the reminder of a task is due at the instant `now`: the task is
/// not `Done`, and its reminder is scheduled for `now` or before.
pub open spec fn is_due(t: TaskView, now: i64) -> bool {
    t.status != Status::Done && (t.remind_at matches Some(at) && at <= now)
}

/// The key by which due reminders are listed: the earlier first.
pub open spec fn reminder_key(t: TaskView) -> SortKey {
    SortKey {
        first: match t.remind_at {
            Some(at) => at,
            None => 0,
        },
        second: 0,
        third: 0,
        fourth: 0,
    }
}

/// The keys of the reminders of a list of tasks, row by row.
pub open spec fn reminder_keys(tasks: Seq<TaskView>) -> Seq<SortKey> {
    Seq::new(tasks.len(), |i: int| reminder_key(tasks[i]))
}

/// The identities of the tasks of a list.
pub open spec fn ids_of(tasks: Seq<TaskView>) -> Seq<Seq<char>> {
    Seq::new(tasks.len(), |i: int| tasks[i].id)
}

impl DbView {
    /// The tasks that pass the filters, in the order in which they were
    /// stored.
    pub open spec fn tasks_matching(self, status: Option<Status>, project: Option<Seq<char>>)
        -> Seq<TaskView> {
        self.tasks.filter(|t: TaskView| task_matches(t, status, project))
    }

    /// What a query for tasks gives: those that pass the filters, as the
    /// keys order them, and of these as many from the front as the limit
    /// lets through.
    pub open spec fn tasks_found(
        self,
        limit: Option<i32>,
        status: Option<Status>,
        project: Option<Seq<char>>,
    ) -> Seq<TaskView> {
        let rows = self.tasks_matching(status, project);
        listed(rows, task_keys(rows)).take(let_through(limit, rows.len()) as int)
    }

    /// The tasks whose reminders are due at the instant `now`, in the order
    /// in which they were stored.
    pub open spec fn tasks_due(self, now: i64) -> Seq<TaskView> {
        self.tasks.filter(|t: TaskView| is_due(t, now))
    }

    /// What a query for due reminders gives: the tasks whose reminders are
    /// due at `now`, the earlier reminder first, and of these a batch from
    /// the front.
    pub open spec fn reminders_found(self, now: i64) -> Seq<TaskView> {
        let rows = self.tasks_due(now);
        listed(rows, reminder_keys(rows)).take(
            if rows.len() < REMINDER_BATCH {
                rows.len() as int
            } else {
                REMINDER_BATCH as int
            },
        )
    }

    /// The store in which the reminder of the task `id`, if there is such a
    /// task and it has a reminder, has fired at the instant `now`.
    pub open spec fn with_fired(self, id: Seq<char>, now: i64) -> DbView {
        DbView {
            tasks: self.tasks.map_values(
                |t: TaskView|
                    if t.id == id {
                        t.fired(now)
                    } else {
                        t
                    },
            ),
            ..self
        }
    }

    /// The store in which the reminder of every task that is named in
    /// `ids` and has a reminder has fired at the instant `now`. A named
    /// task without a reminder is as it was.
    pub open spec fn with_reminded(self, ids: Seq<Seq<char>>, now: i64) -> DbView {
        DbView {
            tasks: self.tasks.map_values(
                |t: TaskView|
                    if ids.contains(t.id) {
                        t.fired(now)
                    } else {
                        t
                    },
            ),
            ..self
        }
    }
}

impl TaskView {
    /// The task once its reminder has fired at the instant `now`: it has no
    /// reminder left and counts as reminded at `now`. A task without a
    /// reminder is as it was.
    pub open spec fn fired(self, now: i64) -> TaskView {
        if self.remind_at is Some {
            self.changed(TaskChange::Reminded(now))
        } else {
            self
        }
    }
}

/// The key by which a task is listed.
fn key_of_task(t: &Task) -> (key: SortKey)
    ensures
        key == task_key(t@),
{
    SortKey {
        first: 2 - t.priority.to_int() as i64,
        second: if t.deadline.is_some() {
            0
        } else {
            1
        },
        third: match t.deadline {
            Some(d) => d,
            None => 0,
        },
        fourth: -1 - t.created_at,
    }
}

/// The key by which the reminder of a task is listed.
fn key_of_reminder(t: &Task) -> (key: SortKey)
    ensures
        key == reminder_key(t@),
{
    SortKey {
        first: match t.remind_at {
            Some(at) => at,
            None => 0,
        },
        second: 0,
        third: 0,
        fourth: 0,
    }
}

/// Whether a task passes the filters.
fn passes(t: &Task, status: Option<Status>, project: &Option<String>) -> (r: bool)
    ensures
        r == task_matches(t@, status, project.deep_view()),
{
    let status_ok: bool = match status {
        Some(s) => t.status == s,
        None => true,
    };
    let project_ok: bool = match project {
        Some(_) => same_opt_text(&t.project_id, project),
        None => true,
    };
    status_ok && project_ok
}

/// Whether the reminder of a task is due at `now`.
fn due(t: &Task, now: i64) -> (r: bool)
    ensures
        r == is_due(t@, now),
{
    let open: bool = match t.status {
        Status::Done => false,
        _ => true,
    };
    match t.remind_at {
        Some(at) => open && at <= now,
        None => false,
    }
}

impl AppDatabase {
    /// Copies out the first `count` of the picked tasks, as their keys
    /// order them.
    fn gather_tasks(&self, picked: &Vec<usize>, keys: &Vec<SortKey>, count: usize) -> (list: Vec<
        Task,
    >)
        requires
            picked.len() == keys.len(),
            count <= picked.len(),
            forall|k: int| 0 <= k < picked.len() ==> #[trigger] picked[k] < self@.tasks.len(),
        ensures
            views(list@) == listed(
                Seq::new(picked.len() as nat, |k: int| self@.tasks[picked[k] as int]),
                keys@,
            ).take(count as int),
    {
        let ghost rows = Seq::new(picked.len() as nat, |k: int| self@.tasks[picked[k] as int]);
        let order: Vec<usize> = stable_order(keys);
        let mut list: Vec<Task> = Vec::new();
        let mut k: usize = 0;
        while k < count
            invariant
                k <= count <= picked.len(),
                order.len() == picked.len(),
                rows.len() == picked.len(),
                list.len() == k,
                forall|j: int| 0 <= j < order.len() ==> #[trigger] order[j] < picked.len(),
                forall|j: int| 0 <= j < picked.len() ==> #[trigger] picked[j] < self.tasks.len(),
                forall|j: int|
                    0 <= j < picked.len() ==> self@.tasks[#[trigger] picked[j] as int] == rows[j],
                forall|j: int| 0 <= j < k ==> (#[trigger] list[j])@ == rows[order[j] as int],
            decreases count - k,
        {
            list.push(self.tasks[picked[order[k]]].clone());
            k += 1;
        }
        assert(views(list@) =~= listed(rows, keys@).take(count as int));
        list
    }

    /// The tasks that pass the filters: those with the status `status`, if
    /// one is given, that belong to the project `project_id`, if one is
    /// given. They come with the higher priority first; among tasks of one
    /// priority the earlier deadline first and tasks without a deadline
    /// last; among these the younger task first; and tasks that are equal
    /// in all of this in the order in which they were stored. A limit that
    /// is not negative cuts the list to that many tasks from the front.
    pub fn get_tasks(&self, limit: Option<i32>, status: Option<Status>, project_id: Option<String>)
        -> (r: Result<Vec<Task>, DbError>)
        ensures
            r matches Ok(list) && views(list@) == self@.tasks_found(
                limit,
                status,
                project_id.deep_view(),
            ),
    {
        let ghost wanted = |t: TaskView| task_matches(t, status, project_id.deep_view());
        let mut picked: Vec<usize> = Vec::new();
        let mut keys: Vec<SortKey> = Vec::new();
        let mut i: usize = 0;
        proof {
            assert(self@.tasks.take(0) =~= Seq::<TaskView>::empty());
            lemma_filter_all(Seq::<TaskView>::empty(), wanted);
        }
        while i < self.tasks.len()
            invariant
                i <= self.tasks.len(),
                wanted == |t: TaskView| task_matches(t, status, project_id.deep_view()),
                picked.len() == keys.len(),
                forall|k: int| 0 <= k < picked.len() ==> #[trigger] picked[k] < i,
                Seq::new(picked.len() as nat, |k: int| self@.tasks[picked[k] as int])
                    == self@.tasks.take(i as int).filter(wanted),
                forall|k: int|
                    0 <= k < picked.len() ==> #[trigger] keys[k] == task_key(
                        self@.tasks[picked[k] as int],
                    ),
            decreases self.tasks.len() - i,
        {
            proof {
                assert(self@.tasks.take(i + 1) =~= self@.tasks.take(i as int).push(
                    self@.tasks[i as int],
                ));
                lemma_filter_push(self@.tasks.take(i as int), self@.tasks[i as int], wanted);
            }
            if passes(&self.tasks[i], status, &project_id) {
                let ghost prior = Seq::new(
                    picked.len() as nat,
                    |k: int| self@.tasks[picked[k] as int],
                );
                picked.push(i);
                keys.push(key_of_task(&self.tasks[i]));
                assert(Seq::new(picked.len() as nat, |k: int| self@.tasks[picked[k] as int])
                    =~= prior.push(self@.tasks[i as int]));
            }
            i += 1;
        }
        assert(self@.tasks.take(self.tasks.len() as int) =~= self@.tasks);
        let ghost rows = self@.tasks_matching(status, project_id.deep_view());
        assert(keys@ =~= task_keys(rows));
        let count: usize = match limit {
            Some(l) => if l >= 0 && (l as usize) < picked.len() {
                l as usize
            } else {
                picked.len()
            },
            None => picked.len(),
        };
        Ok(self.gather_tasks(&picked, &keys, count))
    }

    /// The tasks whose reminders are due at the instant `now`: tasks that
    /// are not `Done` and whose reminder is scheduled for `now` or before.
    /// They come with the earlier reminder first, tasks with reminders for
    /// the same instant in the order in which they were stored, and no more
    /// than a batch of them.
    pub fn get_due_reminders(&self, now: i64) -> (r: Result<Vec<Task>, DbError>)
        ensures
            r matches Ok(list) && views(list@) == self@.reminders_found(now),
    {
        let ghost wanted = |t: TaskView| is_due(t, now);
        let mut picked: Vec<usize> = Vec::new();
        let mut keys: Vec<SortKey> = Vec::new();
        let mut i: usize = 0;
        proof {
            assert(self@.tasks.take(0) =~= Seq::<TaskView>::empty());
            lemma_filter_all(Seq::<TaskView>::empty(), wanted);
        }
        while i < self.tasks.len()
            invariant
                i <= self.tasks.len(),
                wanted == |t: TaskView| is_due(t, now),
                picked.len() == keys.len(),
                forall|k: int| 0 <= k < picked.len() ==> #[trigger] picked[k] < i,
                Seq::new(picked.len() as nat, |k: int| self@.tasks[picked[k] as int])
                    == self@.tasks.take(i as int).filter(wanted),
                forall|k: int|
                    0 <= k < picked.len() ==> #[trigger] keys[k] == reminder_key(
                        self@.tasks[picked[k] as int],
                    ),
            decreases self.tasks.len() - i,
        {
            proof {
                assert(self@.tasks.take(i + 1) =~= self@.tasks.take(i as int).push(
                    self@.tasks[i as int],
                ));
                lemma_filter_push(self@.tasks.take(i as int), self@.tasks[i as int], wanted);
            }
            if due(&self.tasks[i], now) {
                let ghost prior = Seq::new(
                    picked.len() as nat,
                    |k: int| self@.tasks[picked[k] as int],
                );
                picked.push(i);
                keys.push(key_of_reminder(&self.tasks[i]));
                assert(Seq::new(picked.len() as nat, |k: int| self@.tasks[picked[k] as int])
                    =~= prior.push(self@.tasks[i as int]));
            }
            i += 1;
        }
        assert(self@.tasks.take(self.tasks.len() as int) =~= self@.tasks);
        let ghost rows = self@.tasks_due(now);
        assert(keys@ =~= reminder_keys(rows));
        let count: usize = if picked.len() < REMINDER_BATCH {
            picked.len()
        } else {
            REMINDER_BATCH
        };
        Ok(self.gather_tasks(&picked, &keys, count))
    }

    /// Notes that the reminder of the task `id`, if it has one, has fired at
    /// `now`.
    fn remind_row(&mut self, id: &String, now: i64)
        requires
            old(self).wf(),
        ensures
            final(self).wf(),
            final(self)@ == old(self)@.with_fired(id@, now),
    {
        let found: Option<usize> = self.find_task(id);
        let ghost change = TaskChange::Reminded(now);
        match found {
            Some(i) => {
                if self.tasks[i].remind_at.is_some() {
                    self.tasks[i].remind_at = None;
                    self.tasks[i].reminded_at = Some(now);
                    proof {
                        assert(self@.tasks =~= old(self)@.tasks.update(
                            i as int,
                            old(self)@.tasks[i as int].changed(change),
                        ));
                        lemma_task_row_changed(old(self)@, self@, found, id@, change);
                    }
                }
                proof {
                    assert forall|j: int| 0 <= j < self@.tasks.len() implies (
                    #[trigger] self@.tasks[j]) == old(self)@.with_fired(id@, now).tasks[j] by {
                        if j < i {
                            assert(old(self)@.tasks[j].id != old(self)@.tasks[i as int].id);
                        } else if j > i {
                            assert(old(self)@.tasks[i as int].id != old(self)@.tasks[j].id);
                        }
                    }
                    assert(self@.tasks =~= old(self)@.with_fired(id@, now).tasks);
                }
            },
            None => {
                assert(self@.tasks =~= old(self)@.with_fired(id@, now).tasks);
            },
        }
    }

    /// Notes, in one step, that the reminders of the tasks named in `ids`
    /// have fired at the instant `now`: each of these tasks that has a
    /// reminder has none any more and counts as reminded at `now`. A named
    /// task without a reminder is as it was, so that marking the same tasks
    /// a second time changes nothing. Names of tasks that are not there
    /// are passed over. The step cannot fail half way: it never fails.
    pub fn mark_reminded(&mut self, ids: &[String], now: i64) -> (r: Result<(), DbError>)
        requires
            old(self).wf(),
        ensures
            final(self).wf(),
            r is Ok,
            final(self)@ == old(self)@.with_reminded(ids.deep_view(), now),
    {
        let ghost names: Seq<Seq<char>> = ids.deep_view();
        let mut i: usize = 0;
        proof {
            assert(old(self)@.with_reminded(names.take(0), now).tasks =~= old(self)@.tasks);
        }
        while i < ids.len()
            invariant
                i <= ids.len(),
                names == ids.deep_view(),
                self.wf(),
                self@ == old(self)@.with_reminded(names.take(i as int), now),
            decreases ids.len() - i,
        {
            self.remind_row(&ids[i], now);
            proof {
                let done = names.take(i as int);
                let more = names.take(i + 1);
                let id = names[i as int];
                assert(more =~= done.push(id));
                assert forall|j: int| 0 <= j < self@.tasks.len() implies (#[trigger] self@.tasks[j])
                    == old(self)@.with_reminded(more, now).tasks[j] by {
                    let t = old(self)@.tasks[j];
                    if done.contains(t.id) {
                        let k = choose|k: int| 0 <= k < done.len() && done[k] == t.id;
                        assert(more[k] == t.id);
                    }
                    if t.id == id {
                        assert(more[i as int] == t.id);
                    }
                    if more.contains(t.id) {
                        let k = choose|k: int| 0 <= k < more.len() && more[k] == t.id;
                        if k < i {
                            assert(done[k] == t.id);
                        }
                    }
                }
                assert(self@.tasks =~= old(self)@.with_reminded(more, now).tasks);
            }
            i += 1;
        }
        assert(names.take(ids.len() as int) =~= names);
        Ok(())
    }
}

/// Whether the task `a` may stand before the task `b` in a listing: it has
/// the higher priority; or the same, and the earlier deadline, a task with a
/// deadline coming before one without; or the same in both, and it is not
/// the older one.
pub open spec fn in_listing_order(a: TaskView, b: TaskView) -> bool {
    ||| a.priority.code() > b.priority.code()
    ||| (a.priority == b.priority && a.deadline is Some && b.deadline is None)
    ||| (a.priority == b.priority && a.deadline is Some && b.deadline is Some && a.deadline->0
        < b.deadline->0)
    ||| (a.priority == b.priority && a.deadline == b.deadline && a.created_at >= b.created_at)
}

/// What a query for tasks gives: no more tasks than a limit that is not
/// negative allows; only tasks of the store that pass the filters; all of
/// them, where the limit cuts none off; and each task before every task
/// that it may stand before.
pub proof fn lemma_tasks_found(
    v: DbView,
    limit: Option<i32>,
    status: Option<Status>,
    project: Option<Seq<char>>,
)
    ensures
        limit is Some && limit->0 >= 0 ==> v.tasks_found(limit, status, project).len() <= limit->0,
        v.tasks_found(limit, status, project).len() <= v.tasks.len(),
        forall|i: int|
            0 <= i < v.tasks_found(limit, status, project).len() ==> task_matches(
                #[trigger] v.tasks_found(limit, status, project)[i],
                status,
                project,
            ) && v.tasks.contains(v.tasks_found(limit, status, project)[i]),
        forall|i: int, j: int|
            0 <= i < j < v.tasks_found(limit, status, project).len() ==> in_listing_order(
                #[trigger] v.tasks_found(limit, status, project)[i],
                #[trigger] v.tasks_found(limit, status, project)[j],
            ),
        (limit is None || limit->0 < 0 || limit->0 >= v.tasks_matching(status, project).len())
            ==> forall|k: int|
            0 <= k < v.tasks.len() && task_matches(v.tasks[k], status, project)
                ==> v.tasks_found(limit, status, project).contains(#[trigger] v.tasks[k]),
{
    let wanted = |t: TaskView| task_matches(t, status, project);
    let rows = v.tasks_matching(status, project);
    let keys = task_keys(rows);
    let order = crate::sorting::sorted_positions(keys);
    let found = v.tasks_found(limit, status, project);
    crate::tables::lemma_filter_keeps_order(v.tasks, wanted);
    crate::sorting::lemma_sorted_positions(keys);
    assert forall|i: int| 0 <= i < found.len() implies task_matches(
        #[trigger] found[i],
        status,
        project,
    ) && v.tasks.contains(found[i]) by {
        let at = order[i];
        assert(found[i] == rows[at]);
        assert(wanted(rows[at]));
    }
    assert forall|i: int, j: int| 0 <= i < j < found.len() implies in_listing_order(
        #[trigger] found[i],
        #[trigger] found[j],
    ) by {
        assert(crate::sorting::precedes(keys, order[i], order[j]));
        assert(keys[order[i]] == task_key(rows[order[i]]));
        assert(keys[order[j]] == task_key(rows[order[j]]));
    }
    if limit is None || limit->0 < 0 || limit->0 >= rows.len() {
        assert forall|k: int|
            0 <= k < v.tasks.len() && task_matches(v.tasks[k], status, project) implies found.contains(
            #[trigger] v.tasks[k],
        ) by {
            crate::tables::lemma_filter_keeps_passing(v.tasks, wanted, k);
            let a = choose|a: int| 0 <= a < rows.len() && rows[a] == v.tasks[k];
            assert(order.contains(a));
            let i = choose|i: int| 0 <= i < order.len() && order[i] == a;
            assert(found[i] == v.tasks[k]);
        }
    }
}

/// Marking the same reminders as fired a second time changes nothing, at
/// whatever instant it is done: no reminder is cleared twice, and the
/// instant at which a task counts as reminded stays. After the first time
/// none of the named tasks is due any more, at whatever instant one asks.
pub proof fn lemma_reminded_twice(v: DbView, ids: Seq<Seq<char>>, now: i64, again: i64)
    ensures
        v.with_reminded(ids, now).with_reminded(ids, again) == v.with_reminded(ids, now),
        forall|i: int|
            0 <= i < v.tasks.len() && ids.contains(v.tasks[i].id) ==> (#[trigger] v.with_reminded(
                ids,
                now,
            ).tasks[i]).remind_at is None,
        forall|i: int|
            0 <= i < v.tasks.len() && !(ids.contains(v.tasks[i].id) && v.tasks[i].remind_at is Some)
                ==> #[trigger] v.with_reminded(ids, now).tasks[i] == v.tasks[i],
        forall|i: int, at: i64|
            0 <= i < v.tasks.len() && ids.contains(v.tasks[i].id) ==> !#[trigger] is_due(
                v.with_reminded(ids, now).tasks[i],
                at,
            ),
        forall|at: i64, i: int|
            0 <= i < v.with_reminded(ids, now).tasks_due(at).len() ==> !ids.contains(
                (#[trigger] v.with_reminded(ids, now).tasks_due(at)[i]).id,
            ),
{
    let once = v.with_reminded(ids, now);
    assert(once.with_reminded(ids, again).tasks =~= once.tasks);
    assert forall|at: i64, i: int| 0 <= i < once.tasks_due(at).len() implies !ids.contains(
        (#[trigger] once.tasks_due(at)[i]).id,
    ) by {
        let wanted = |t: TaskView| is_due(t, at);
        crate::tables::lemma_filter_keeps_order(once.tasks, wanted);
        let t = once.tasks_due(at)[i];
        assert(wanted(t));
        let k = choose|k: int| 0 <= k < once.tasks.len() && once.tasks[k] == t;
        assert(once.tasks[k].id == v.tasks[k].id);
    }
}

} // verus!
