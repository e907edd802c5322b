//! The store: projects, tasks, subtasks, focus sessions and settings, and
//! the rules that every change keeps.

use crate::calendar::now_millis;
use crate::error::DbError;
use crate::models::{
    AppSettings, FocusSession, FocusSessionView, Priority, Project, ProjectView, Status, Subtask,
    SubtaskView, Task, TaskView,
};
use vstd::prelude::*;

pub mod projects;
pub mod queries;
pub mod series;
pub mod sessions;
pub mod snapshot;
pub mod stats;
pub mod status;
pub mod subtasks;
pub mod tasks;
pub mod transfer;

verus! {

/// The settings as they were saved, and when.
#[derive(Debug, Clone, Copy, PartialEq, Eq, Structural)]
pub struct StoredSettings {
    pub values: AppSettings,
    /// Milliseconds since the Unix epoch.
    pub updated_at: i64,
}

/// The views of the rows of a table, in the order of the rows.
pub open spec fn views<T: View>(rows: Seq<T>) -> Seq<T::V> {
    rows.map_values(|row: T| row@)
}

/// What the store holds: its tables, each in the order in which the rows
/// were stored.
pub struct DbView {
    pub projects: Seq<ProjectView>,
    pub tasks: Seq<TaskView>,
    pub subtasks: Seq<SubtaskView>,
    pub sessions: Seq<FocusSessionView>,
    pub settings: Option<StoredSettings>,
}

impl DbView {
    /// Whether a project has the identity.
    pub open spec fn has_project(self, id: Seq<char>) -> bool {
        exists|i: int| 0 <= i < self.projects.len() && #[trigger] self.projects[i].id == id
    }

    /// Whether a task has the identity.
    pub open spec fn has_task(self, id: Seq<char>) -> bool {
        exists|i: int| 0 <= i < self.tasks.len() && #[trigger] self.tasks[i].id == id
    }

    /// Whether a subtask has the identity.
    pub open spec fn has_subtask(self, id: Seq<char>) -> bool {
        exists|i: int| 0 <= i < self.subtasks.len() && #[trigger] self.subtasks[i].id == id
    }

    /// Whether a focus session has the identity.
    pub open spec fn has_session(self, id: Seq<char>) -> bool {
        exists|i: int| 0 <= i < self.sessions.len() && #[trigger] self.sessions[i].id == id
    }

    /// Where the task `id` stands in its table.
    pub open spec fn task_index(self, id: Seq<char>) -> int {
        choose|i: int| 0 <= i < self.tasks.len() && #[trigger] self.tasks[i].id == id
    }

    /// The task `id`.
    pub open spec fn task_with(self, id: Seq<char>) -> TaskView {
        self.tasks[self.task_index(id)]
    }

    /// No two rows of a table share an identity.
    pub open spec fn ids_unique(self) -> bool {
        &&& forall|i: int, j: int|
            0 <= i < j < self.projects.len() ==> #[trigger] self.projects[i].id
                != #[trigger] self.projects[j].id
        &&& forall|i: int, j: int|
            0 <= i < j < self.tasks.len() ==> #[trigger] self.tasks[i].id
                != #[trigger] self.tasks[j].id
        &&& forall|i: int, j: int|
            0 <= i < j < self.subtasks.len() ==> #[trigger] self.subtasks[i].id
                != #[trigger] self.subtasks[j].id
        &&& forall|i: int, j: int|
            0 <= i < j < self.sessions.len() ==> #[trigger] self.sessions[i].id
                != #[trigger] self.sessions[j].id
    }

    /// Every task that names a project names one that is there, and every
    /// subtask belongs to a task that is there.
    pub open spec fn references_hold(self) -> bool {
        &&& forall|i: int|
            0 <= i < self.tasks.len() ==> match (#[trigger] self.tasks[i]).project_id {
                Some(p) => self.has_project(p),
                None => true,
            }
        &&& forall|i: int|
            0 <= i < self.subtasks.len() ==> self.has_task((#[trigger] self.subtasks[i]).task_id)
    }

    /// Every task keeps the rules of its life.
    pub open spec fn lifecycles_hold(self) -> bool {
        forall|i: int| 0 <= i < self.tasks.len() ==> (#[trigger] self.tasks[i]).lifecycle_ok()
    }

    /// The rules that the store keeps through every change.
    pub open spec fn wf(self) -> bool {
        &&& self.ids_unique()
        &&& self.references_hold()
        &&& self.lifecycles_hold()
    }

    /// The store with nothing in it.
    pub open spec fn empty() -> DbView {
        DbView {
            projects: Seq::empty(),
            tasks: Seq::empty(),
            subtasks: Seq::empty(),
            sessions: Seq::empty(),
            settings: None,
        }
    }
}

/// A change to one task.
pub enum TaskChange {
    /// A new title.
    Title(Seq<char>),
    /// A new priority.
    Priority(Priority),
    /// A new deadline, and the reminder that goes with it. What was
    /// reminded before no longer counts.
    Deadline(Option<i64>, Option<i64>),
    /// New tags.
    Tags(Seq<Seq<char>>),
    /// New repeat settings: the mode and the weekly pattern.
    Repeat(Option<Seq<char>>, Option<i64>),
    /// A reminder scheduled anew, or none. What was reminded before no
    /// longer counts.
    RemindAt(Option<i64>),
    /// The reminder has fired at the given instant and is no longer due.
    Reminded(i64),
    /// Into the archive, or out of it.
    Archived(bool),
    /// A new place in the manual order.
    SortOrder(i32),
    /// A new status at the given instant. A task that becomes `Done` is
    /// completed at that instant and has no reminder left; any other
    /// status leaves it not completed.
    Status(Status, i64),
}

impl TaskView {
    /// The task after a change.
    pub open spec fn changed(self, change: TaskChange) -> TaskView {
        match change {
            TaskChange::Title(title) => TaskView { title, ..self },
            TaskChange::Priority(priority) => TaskView { priority, ..self },
            TaskChange::Deadline(deadline, remind_at) => TaskView {
                deadline,
                remind_at,
                reminded_at: None,
                ..self
            },
            TaskChange::Tags(tags) => TaskView { tags, ..self },
            TaskChange::Repeat(repeat_mode, repeat_days_mask) => TaskView {
                repeat_mode,
                repeat_days_mask,
                ..self
            },
            TaskChange::RemindAt(remind_at) => TaskView { remind_at, reminded_at: None, ..self },
            TaskChange::Reminded(at) => TaskView {
                remind_at: None,
                reminded_at: Some(at),
                ..self
            },
            TaskChange::Archived(is_archived) => TaskView { is_archived, ..self },
            TaskChange::SortOrder(sort_order) => TaskView { sort_order, ..self },
            TaskChange::Status(status, at) => TaskView {
                status,
                completed_at: if status == Status::Done {
                    Some(at)
                } else {
                    None
                },
                remind_at: if status == Status::Done {
                    None
                } else {
                    self.remind_at
                },
                ..self
            },
        }
    }
}

impl DbView {
    /// The store in which the task `id`, if there is one, is changed.
    pub open spec fn with_task_changed(self, id: Seq<char>, change: TaskChange) -> DbView {
        DbView {
            tasks: self.tasks.map_values(
                |t: TaskView|
                    if t.id == id {
                        t.changed(change)
                    } else {
                        t
                    },
            ),
            ..self
        }
    }

    /// How many minutes before its deadline a task's reminder is due: as
    /// the settings say, or as the initial settings say where none were
    /// saved.
    pub open spec fn lead_minutes(self) -> u32 {
        match self.settings {
            Some(stored) => stored.values.reminder_lead_minutes,
            None => AppSettings::initial().reminder_lead_minutes,
        }
    }
}

/// When the reminder for a deadline is due: `lead_minutes` before the
/// deadline, but not before `now`; never, without a deadline.
pub open spec fn remind_for(deadline: Option<i64>, lead_minutes: u32, now: i64) -> Option<i64> {
    match deadline {
        Some(d) => Some(
            if d - lead_minutes * 60000 >= now {
                (d - lead_minutes * 60000) as i64
            } else {
                now
            },
        ),
        None => None,
    }
}

/// A change keeps a task's identity and project, and the rules of its life.
pub proof fn lemma_changed_keeps(t: TaskView, change: TaskChange)
    ensures
        t.changed(change).id == t.id,
        t.changed(change).project_id == t.project_id,
        t.lifecycle_ok() ==> t.changed(change).lifecycle_ok(),
{
}

/// Changing the one task that has the identity `id` is changing the task
/// `id`, and keeps the store well formed.
pub proof fn lemma_one_task_changed(v: DbView, w: DbView, at: int, change: TaskChange)
    requires
        v.wf(),
        0 <= at < v.tasks.len(),
        w == (DbView { tasks: v.tasks.update(at, v.tasks[at].changed(change)), ..v }),
    ensures
        w == v.with_task_changed(v.tasks[at].id, change),
        w.wf(),
{
    let id = v.tasks[at].id;
    assert(w.tasks =~= v.with_task_changed(id, change).tasks) by {
        assert forall|j: int| 0 <= j < v.tasks.len() implies #[trigger] w.tasks[j]
            == v.with_task_changed(id, change).tasks[j] by {
            if j < at {
                assert(v.tasks[j].id != v.tasks[at].id);
            } else if j > at {
                assert(v.tasks[at].id != v.tasks[j].id);
            }
        }
    }
    assert forall|i: int| 0 <= i < v.tasks.len() implies (#[trigger] w.tasks[i]).id
        == v.tasks[i].id && w.tasks[i].lifecycle_ok() && (match w.tasks[i].project_id {
        Some(p) => v.has_project(p),
        None => true,
    }) by {
        lemma_changed_keeps(v.tasks[i], change);
        assert(v.tasks[i].lifecycle_ok());
    }
    lemma_tasks_edited(v, w);
}

/// Changing the task `id` changes nothing where no task has that identity.
pub proof fn lemma_no_task_changed(v: DbView, id: Seq<char>, change: TaskChange)
    requires
        !v.has_task(id),
    ensures
        v.with_task_changed(id, change) == v,
{
    assert(v.with_task_changed(id, change).tasks =~= v.tasks);
}

/// What a change to the task `id` leaves of the store: with the task found
/// at `found` and changed there, or not found and nothing changed, the store
/// is the one in which the task `id` is changed, and is well formed.
pub proof fn lemma_task_row_changed(
    v: DbView,
    w: DbView,
    found: Option<usize>,
    id: Seq<char>,
    change: TaskChange,
)
    requires
        v.wf(),
        match found {
            Some(i) => {
                &&& i < v.tasks.len()
                &&& v.tasks[i as int].id == id
                &&& w == (DbView {
                    tasks: v.tasks.update(i as int, v.tasks[i as int].changed(change)),
                    ..v
                })
            },
            None => !v.has_task(id) && w == v,
        },
    ensures
        w == v.with_task_changed(id, change),
        w.wf(),
{
    match found {
        Some(i) => {
            lemma_one_task_changed(v, w, i as int, change);
        },
        None => {
            lemma_no_task_changed(v, id, change);
        },
    }
}

/// A store stays well formed when rows of its project table change but keep
/// their identities.
pub proof fn lemma_projects_edited(v: DbView, w: DbView)
    requires
        v.wf(),
        w.tasks == v.tasks,
        w.subtasks == v.subtasks,
        w.sessions == v.sessions,
        w.projects.len() == v.projects.len(),
        forall|i: int| 0 <= i < v.projects.len() ==> (#[trigger] w.projects[i]).id == v.projects[i].id,
    ensures
        w.wf(),
        forall|id: Seq<char>| w.has_project(id) == v.has_project(id),
{
    assert forall|id: Seq<char>| w.has_project(id) == v.has_project(id) by {
        if v.has_project(id) {
            let i = choose|i: int| 0 <= i < v.projects.len() && #[trigger] v.projects[i].id == id;
            assert(w.projects[i].id == id);
        }
        if w.has_project(id) {
            let i = choose|i: int| 0 <= i < w.projects.len() && #[trigger] w.projects[i].id == id;
            assert(v.projects[i].id == id);
        }
    }
    assert forall|i: int, j: int| 0 <= i < j < w.projects.len() implies #[trigger] w.projects[i].id
        != #[trigger] w.projects[j].id by {
        assert(v.projects[i].id != v.projects[j].id);
    }
}

/// A store stays well formed when a project with a new identity is added.
pub proof fn lemma_project_added(v: DbView, p: ProjectView)
    requires
        v.wf(),
        !v.has_project(p.id),
    ensures
        (DbView { projects: v.projects.push(p), ..v }).wf(),
{
    let w = DbView { projects: v.projects.push(p), ..v };
    assert forall|i: int| 0 <= i < w.tasks.len() implies match (#[trigger] w.tasks[i]).project_id {
        Some(q) => w.has_project(q),
        None => true,
    } by {
        match w.tasks[i].project_id {
            Some(q) => {
                assert(v.has_project(q));
                let k = choose|k: int| 0 <= k < v.projects.len() && #[trigger] v.projects[k].id == q;
                assert(w.projects[k].id == q);
            },
            None => {},
        }
    }
}

/// A store stays well formed when rows of its task table change but keep
/// their identities and the rules of their lives, and name no project that
/// is not there.
pub proof fn lemma_tasks_edited(v: DbView, w: DbView)
    requires
        v.wf(),
        w.projects == v.projects,
        w.subtasks == v.subtasks,
        w.sessions == v.sessions,
        w.tasks.len() == v.tasks.len(),
        forall|i: int| 0 <= i < v.tasks.len() ==> (#[trigger] w.tasks[i]).id == v.tasks[i].id,
        forall|i: int| 0 <= i < v.tasks.len() ==> (#[trigger] w.tasks[i]).lifecycle_ok(),
        forall|i: int|
            0 <= i < v.tasks.len() ==> match (#[trigger] w.tasks[i]).project_id {
                Some(p) => v.has_project(p),
                None => true,
            },
    ensures
        w.wf(),
        forall|id: Seq<char>| w.has_task(id) == v.has_task(id),
{
    assert forall|id: Seq<char>| w.has_task(id) == v.has_task(id) by {
        if v.has_task(id) {
            let i = choose|i: int| 0 <= i < v.tasks.len() && #[trigger] v.tasks[i].id == id;
            assert(w.tasks[i].id == id);
        }
        if w.has_task(id) {
            let i = choose|i: int| 0 <= i < w.tasks.len() && #[trigger] w.tasks[i].id == id;
            assert(v.tasks[i].id == id);
        }
    }
    assert forall|i: int, j: int| 0 <= i < j < w.tasks.len() implies #[trigger] w.tasks[i].id
        != #[trigger] w.tasks[j].id by {
        assert(v.tasks[i].id != v.tasks[j].id);
    }
    assert forall|i: int| 0 <= i < w.subtasks.len() implies w.has_task(
        (#[trigger] w.subtasks[i]).task_id,
    ) by {
        assert(v.has_task(v.subtasks[i].task_id));
    }
}

/// A store stays well formed when a task with a new identity is added that
/// keeps the rules of its life and names no project that is not there.
pub proof fn lemma_task_added(v: DbView, t: TaskView)
    requires
        v.wf(),
        !v.has_task(t.id),
        t.lifecycle_ok(),
        t.project_id matches Some(p) ==> v.has_project(p),
    ensures
        (DbView { tasks: v.tasks.push(t), ..v }).wf(),
{
    let w = DbView { tasks: v.tasks.push(t), ..v };
    assert forall|i: int| 0 <= i < w.subtasks.len() implies w.has_task(
        (#[trigger] w.subtasks[i]).task_id,
    ) by {
        let id = w.subtasks[i].task_id;
        assert(v.has_task(id));
        let k = choose|k: int| 0 <= k < v.tasks.len() && #[trigger] v.tasks[k].id == id;
        assert(w.tasks[k].id == id);
    }
    assert forall|i: int| 0 <= i < w.tasks.len() implies match (#[trigger] w.tasks[i]).project_id {
        Some(q) => w.has_project(q),
        None => true,
    } by {
        if i < v.tasks.len() {
            assert(w.tasks[i] == v.tasks[i]);
        }
    }
    assert forall|i: int| 0 <= i < w.tasks.len() implies (#[trigger] w.tasks[i]).lifecycle_ok() by {
        if i < v.tasks.len() {
            assert(w.tasks[i] == v.tasks[i]);
        }
    }
}

/// A store stays well formed when rows of its subtask table change but keep
/// their identities and their tasks.
pub proof fn lemma_subtasks_edited(v: DbView, w: DbView)
    requires
        v.wf(),
        w.projects == v.projects,
        w.tasks == v.tasks,
        w.sessions == v.sessions,
        w.subtasks.len() == v.subtasks.len(),
        forall|i: int| 0 <= i < v.subtasks.len() ==> (#[trigger] w.subtasks[i]).id == v.subtasks[i].id,
        forall|i: int|
            0 <= i < v.subtasks.len() ==> (#[trigger] w.subtasks[i]).task_id
                == v.subtasks[i].task_id,
    ensures
        w.wf(),
{
    assert forall|i: int, j: int| 0 <= i < j < w.subtasks.len() implies #[trigger] w.subtasks[i].id
        != #[trigger] w.subtasks[j].id by {
        assert(v.subtasks[i].id != v.subtasks[j].id);
    }
    assert forall|i: int| 0 <= i < w.subtasks.len() implies w.has_task(
        (#[trigger] w.subtasks[i]).task_id,
    ) by {
        assert(v.has_task(v.subtasks[i].task_id));
    }
}

/// A store stays well formed when rows of its session table change but keep
/// their identities.
pub proof fn lemma_sessions_edited(v: DbView, w: DbView)
    requires
        v.wf(),
        w.projects == v.projects,
        w.tasks == v.tasks,
        w.subtasks == v.subtasks,
        w.sessions.len() == v.sessions.len(),
        forall|i: int| 0 <= i < v.sessions.len() ==> (#[trigger] w.sessions[i]).id == v.sessions[i].id,
    ensures
        w.wf(),
{
    assert forall|i: int, j: int| 0 <= i < j < w.sessions.len() implies #[trigger] w.sessions[i].id
        != #[trigger] w.sessions[j].id by {
        assert(v.sessions[i].id != v.sessions[j].id);
    }
}

/// The store.
pub struct AppDatabase {
    projects: Vec<Project>,
    tasks: Vec<Task>,
    subtasks: Vec<Subtask>,
    sessions: Vec<FocusSession>,
    settings: Option<StoredSettings>,
}

impl View for AppDatabase {
    type V = DbView;

    closed spec fn view(&self) -> DbView {
        DbView {
            projects: views(self.projects@),
            tasks: views(self.tasks@),
            subtasks: views(self.subtasks@),
            sessions: views(self.sessions@),
            settings: self.settings,
        }
    }
}

impl AppDatabase {
    /// The rules that the store keeps through every change.
    pub open spec fn wf(&self) -> bool {
        self@.wf()
    }

    /// A store with nothing in it.
    pub fn new() -> (db: AppDatabase)
        ensures
            db.wf(),
            db@ == DbView::empty(),
    {
        let db = AppDatabase {
            projects: Vec::new(),
            tasks: Vec::new(),
            subtasks: Vec::new(),
            sessions: Vec::new(),
            settings: None,
        };
        assert(db@.projects =~= Seq::empty());
        assert(db@.tasks =~= Seq::empty());
        assert(db@.subtasks =~= Seq::empty());
        assert(db@.sessions =~= Seq::empty());
        db
    }

    /// Where the project with an identity stands in its table.
    pub(crate) fn find_project(&self, id: &String) -> (at: Option<usize>)
        ensures
            match at {
                Some(i) => i < self@.projects.len() && self@.projects[i as int].id == id@,
                None => !self@.has_project(id@),
            },
    {
        let mut i: usize = 0;
        while i < self.projects.len()
            invariant
                i <= self.projects.len(),
                forall|j: int| 0 <= j < i ==> (#[trigger] self@.projects[j]).id != id@,
            decreases self.projects.len() - i,
        {
            if self.projects[i].id == *id {
                return Some(i);
            }
            i += 1;
        }
        None
    }
    /// Where the task with an identity stands in its table.
    pub(crate) fn find_task(&self, id: &String) -> (at: Option<usize>)
        ensures
            match at {
                Some(i) => i < self@.tasks.len() && self@.tasks[i as int].id == id@,
                None => !self@.has_task(id@),
            },
    {
        let mut i: usize = 0;
        while i < self.tasks.len()
            invariant
                i <= self.tasks.len(),
                forall|j: int| 0 <= j < i ==> (#[trigger] self@.tasks[j]).id != id@,
            decreases self.tasks.len() - i,
        {
            if self.tasks[i].id == *id {
                return Some(i);
            }
            i += 1;
        }
        None
    }

    /// Where the subtask with an identity stands in its table.
    pub(crate) fn find_subtask(&self, id: &String) -> (at: Option<usize>)
        ensures
            match at {
                Some(i) => i < self@.subtasks.len() && self@.subtasks[i as int].id == id@,
                None => !self@.has_subtask(id@),
            },
    {
        let mut i: usize = 0;
        while i < self.subtasks.len()
            invariant
                i <= self.subtasks.len(),
                forall|j: int| 0 <= j < i ==> (#[trigger] self@.subtasks[j]).id != id@,
            decreases self.subtasks.len() - i,
        {
            if self.subtasks[i].id == *id {
                return Some(i);
            }
            i += 1;
        }
        None
    }

    /// Where the focus session with an identity stands in its table.
    pub(crate) fn find_session(&self, id: &String) -> (at: Option<usize>)
        ensures
            match at {
                Some(i) => i < self@.sessions.len() && self@.sessions[i as int].id == id@,
                None => !self@.has_session(id@),
            },
    {
        let mut i: usize = 0;
        while i < self.sessions.len()
            invariant
                i <= self.sessions.len(),
                forall|j: int| 0 <= j < i ==> (#[trigger] self@.sessions[j]).id != id@,
            decreases self.sessions.len() - i,
        {
            if self.sessions[i].id == *id {
                return Some(i);
            }
            i += 1;
        }
        None
    }

    /// The settings: those that were saved, or the initial ones where none
    /// were. Never an error.
    pub fn get_settings(&self) -> (r: Result<AppSettings, DbError>)
        ensures
            r == Ok::<AppSettings, DbError>(
                match self@.settings {
                    Some(stored) => stored.values,
                    None => AppSettings::initial(),
                },
            ),
    {
        match self.settings {
            Some(stored) => Ok(stored.values),
            None => Ok(AppSettings::default()),
        }
    }

    /// Saves the settings at the instant `now`, in place of any saved
    /// before.
    pub fn save_settings_at(&mut self, settings: AppSettings, now: i64) -> (r: Result<(), DbError>)
        requires
            old(self).wf(),
        ensures
            final(self).wf(),
            r is Ok,
            final(self)@ == (DbView {
                settings: Some(StoredSettings { values: settings, updated_at: now }),
                ..old(self)@
            }),
    {
        self.settings = Some(StoredSettings { values: settings, updated_at: now });
        Ok(())
    }

    /// Saves the settings, in place of any saved before, and notes the time
    /// of the machine's clock.
    pub fn save_settings(&mut self, settings: AppSettings) -> (r: Result<(), DbError>)
        requires
            old(self).wf(),
        ensures
            final(self).wf(),
            r is Ok,
            final(self)@.settings matches Some(stored) && stored.values == settings,
            final(self)@ == (DbView { settings: final(self)@.settings, ..old(self)@ }),
    {
        let now: i64 = now_millis();
        self.save_settings_at(settings, now)
    }

    /// How many minutes before its deadline a task's reminder is due.
    pub(crate) fn lead_minutes(&self) -> (lead: u32)
        ensures
            lead == self@.lead_minutes(),
    {
        match self.settings {
            Some(stored) => stored.values.reminder_lead_minutes,
            None => AppSettings::default().reminder_lead_minutes,
        }
    }
}

/// When the reminder for a deadline is due; see [`remind_for`].
pub fn remind_time(deadline: Option<i64>, lead_minutes: u32, now: i64) -> (r: Option<i64>)
    ensures
        r == remind_for(deadline, lead_minutes, now),
{
    match deadline {
        Some(d) => {
            let lead: i64 = lead_minutes as i64 * 60000;
            if d >= i64::MIN + lead && d - lead >= now {
                Some(d - lead)
            } else {
                Some(now)
            }
        },
        None => None,
    }
}

} // verus!
