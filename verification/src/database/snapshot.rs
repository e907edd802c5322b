//! The store as a whole: handing its tables out, and building a store from
//! tables that were kept elsewhere.

use crate::database::{views, AppDatabase, DbView, StoredSettings};
use crate::error::DbError;
use crate::models::{FocusSession, Project, Status, Subtask, Task};
use vstd::prelude::*;

verus! {

impl DbView {
    /// Why tables cannot be taken as a store, if they cannot: `DuplicateId`
    /// where two rows of a table share an identity; else `InvalidRecord`
    /// where a task breaks a rule of its life; else `UnknownProject` where
    /// a task names a project that is not there; else `UnknownTask` where a
    /// subtask belongs to a task that is not there.
    pub open spec fn refuses_restore(self) -> Option<DbError> {
        if !self.ids_unique() {
            Some(DbError::DuplicateId)
        } else if !self.lifecycles_hold() {
            Some(DbError::InvalidRecord)
        } else if exists|i: int|
            0 <= i < self.tasks.len() && ((#[trigger] self.tasks[i]).project_id matches Some(p)
                && !self.has_project(p)) {
            Some(DbError::UnknownProject)
        } else if exists|i: int|
            0 <= i < self.subtasks.len() && !self.has_task((#[trigger] self.subtasks[i]).task_id) {
            Some(DbError::UnknownTask)
        } else {
            None
        }
    }
}

/// Tables can be taken as a store exactly where they keep the rules of the
/// store.
pub proof fn lemma_refuses_restore(v: DbView)
    ensures
        v.refuses_restore() is None <==> v.wf(),
{
    if v.refuses_restore() is None {
        assert forall|i: int| 0 <= i < v.tasks.len() implies match (#[trigger] v.tasks[i]).project_id {
            Some(p) => v.has_project(p),
            None => true,
        } by {}
    }
}

/// Whether no two texts of a list are the same.
pub fn all_distinct(ids: &Vec<String>) -> (r: bool)
    ensures
        r == forall|i: int, j: int| 0 <= i < j < ids.len() ==> #[trigger] ids[i]@ != #[trigger] ids[j]@,
{
    let mut j: usize = 0;
    while j < ids.len()
        invariant
            j <= ids.len(),
            forall|a: int, b: int| 0 <= a < b < j ==> #[trigger] ids[a]@ != #[trigger] ids[b]@,
        decreases ids.len() - j,
    {
        let mut i: usize = 0;
        while i < j
            invariant
                i <= j < ids.len(),
                forall|a: int| 0 <= a < i ==> #[trigger] ids[a]@ != ids[j as int]@,
            decreases j - i,
        {
            if ids[i] == ids[j] {
                return false;
            }
            i += 1;
        }
        j += 1;
    }
    true
}

impl AppDatabase {
    /// The projects, in the order in which they were stored.
    pub fn projects(&self) -> (rows: &Vec<Project>)
        ensures
            views(rows@) == self@.projects,
    {
        &self.projects
    }

    /// The tasks, in the order in which they were stored.
    pub fn tasks(&self) -> (rows: &Vec<Task>)
        ensures
            views(rows@) == self@.tasks,
    {
        &self.tasks
    }

    /// The subtasks, in the order in which they were stored.
    pub fn subtasks(&self) -> (rows: &Vec<Subtask>)
        ensures
            views(rows@) == self@.subtasks,
    {
        &self.subtasks
    }

    /// The focus sessions, in the order in which they were begun.
    pub fn sessions(&self) -> (rows: &Vec<FocusSession>)
        ensures
            views(rows@) == self@.sessions,
    {
        &self.sessions
    }

    /// The settings as they were saved, if any were.
    pub fn stored_settings(&self) -> (stored: Option<StoredSettings>)
        ensures
            stored == self@.settings,
    {
        self.settings
    }

    /// Whether no two rows of a table share an identity.
    fn ids_distinct(&self) -> (r: bool)
        ensures
            r == self@.ids_unique(),
    {
        let mut ids: Vec<String> = Vec::new();
        let mut i: usize = 0;
        while i < self.projects.len()
            invariant
                i <= self.projects.len(),
                ids.len() == i,
                forall|k: int| 0 <= k < i ==> (#[trigger] ids[k])@ == self@.projects[k].id,
            decreases self.projects.len() - i,
        {
            ids.push(self.projects[i].id.clone());
            i += 1;
        }
        if !all_distinct(&ids) {
            proof {
                let (a, b) = choose|a: int, b: int| 0 <= a < b < ids.len() && ids[a]@ == ids[b]@;
                assert(self@.projects[a].id == self@.projects[b].id);
            }
            return false;
        }
        assert forall|a: int, b: int| 0 <= a < b < self@.projects.len() implies (
        #[trigger] self@.projects[a]).id != (#[trigger] self@.projects[b]).id by {
            assert(ids[a]@ != ids[b]@);
        }
        let mut ids: Vec<String> = Vec::new();
        let mut i: usize = 0;
        while i < self.tasks.len()
            invariant
                i <= self.tasks.len(),
                ids.len() == i,
                forall|k: int| 0 <= k < i ==> (#[trigger] ids[k])@ == self@.tasks[k].id,
            decreases self.tasks.len() - i,
        {
            ids.push(self.tasks[i].id.clone());
            i += 1;
        }
        if !all_distinct(&ids) {
            proof {
                let (a, b) = choose|a: int, b: int| 0 <= a < b < ids.len() && ids[a]@ == ids[b]@;
                assert(self@.tasks[a].id == self@.tasks[b].id);
            }
            return false;
        }
        assert forall|a: int, b: int| 0 <= a < b < self@.tasks.len() implies (
        #[trigger] self@.tasks[a]).id != (#[trigger] self@.tasks[b]).id by {
            assert(ids[a]@ != ids[b]@);
        }
        let mut ids: Vec<String> = Vec::new();
        let mut i: usize = 0;
        while i < self.subtasks.len()
            invariant
                i <= self.subtasks.len(),
                ids.len() == i,
                forall|k: int| 0 <= k < i ==> (#[trigger] ids[k])@ == self@.subtasks[k].id,
            decreases self.subtasks.len() - i,
        {
            ids.push(self.subtasks[i].id.clone());
            i += 1;
        }
        if !all_distinct(&ids) {
            proof {
                let (a, b) = choose|a: int, b: int| 0 <= a < b < ids.len() && ids[a]@ == ids[b]@;
                assert(self@.subtasks[a].id == self@.subtasks[b].id);
            }
            return false;
        }
        assert forall|a: int, b: int| 0 <= a < b < self@.subtasks.len() implies (
        #[trigger] self@.subtasks[a]).id != (#[trigger] self@.subtasks[b]).id by {
            assert(ids[a]@ != ids[b]@);
        }
        let mut ids: Vec<String> = Vec::new();
        let mut i: usize = 0;
        while i < self.sessions.len()
            invariant
                i <= self.sessions.len(),
                ids.len() == i,
                forall|k: int| 0 <= k < i ==> (#[trigger] ids[k])@ == self@.sessions[k].id,
            decreases self.sessions.len() - i,
        {
            ids.push(self.sessions[i].id.clone());
            i += 1;
        }
        if !all_distinct(&ids) {
            proof {
                let (a, b) = choose|a: int, b: int| 0 <= a < b < ids.len() && ids[a]@ == ids[b]@;
                assert(self@.sessions[a].id == self@.sessions[b].id);
            }
            return false;
        }
        assert forall|a: int, b: int| 0 <= a < b < self@.sessions.len() implies (
        #[trigger] self@.sessions[a]).id != (#[trigger] self@.sessions[b]).id by {
            assert(ids[a]@ != ids[b]@);
        }
        true
    }

    /// Why the tables cannot be taken as a store, if they cannot.
    fn check_restore(&self) -> (r: Option<DbError>)
        ensures
            r == self@.refuses_restore(),
    {
        if !self.ids_distinct() {
            return Some(DbError::DuplicateId);
        }
        let mut i: usize = 0;
        while i < self.tasks.len()
            invariant
                i <= self.tasks.len(),
                self@.ids_unique(),
                forall|j: int| 0 <= j < i ==> (#[trigger] self@.tasks[j]).lifecycle_ok(),
            decreases self.tasks.len() - i,
        {
            let done: bool = match self.tasks[i].status {
                Status::Done => true,
                _ => false,
            };
            if self.tasks[i].completed_at.is_some() != done || (self.tasks[i].remind_at.is_some()
                && self.tasks[i].reminded_at.is_some()) {
                assert(!self@.tasks[i as int].lifecycle_ok());
                return Some(DbError::InvalidRecord);
            }
            i += 1;
        }
        let mut k: usize = 0;
        while k < self.tasks.len()
            invariant
                k <= self.tasks.len(),
                self@.ids_unique(),
                self@.lifecycles_hold(),
                forall|j: int|
                    0 <= j < k ==> !((#[trigger] self@.tasks[j]).project_id matches Some(p)
                        && !self@.has_project(p)),
            decreases self.tasks.len() - k,
        {
            if let Some(p) = &self.tasks[k].project_id {
                if self.find_project(p).is_none() {
                    assert(self@.tasks[k as int].project_id == Some(p@));
                    return Some(DbError::UnknownProject);
                }
            }
            k += 1;
        }
        let mut n: usize = 0;
        while n < self.subtasks.len()
            invariant
                n <= self.subtasks.len(),
                self@.ids_unique(),
                self@.lifecycles_hold(),
                forall|j: int|
                    0 <= j < self@.tasks.len() ==> !((#[trigger] self@.tasks[j]).project_id matches Some(
                        p,
                    ) && !self@.has_project(p)),
                forall|j: int| 0 <= j < n ==> self@.has_task((#[trigger] self@.subtasks[j]).task_id),
            decreases self.subtasks.len() - n,
        {
            if self.find_task(&self.subtasks[n].task_id).is_none() {
                assert(!self@.has_task(self@.subtasks[n as int].task_id));
                return Some(DbError::UnknownTask);
            }
            n += 1;
        }
        None
    }

    /// Builds a store from tables that were kept elsewhere, each in the
    /// order in which its rows were stored. Refused, as
    /// [`DbView::refuses_restore`] says, where the tables do not keep the
    /// rules of the store.
    pub fn restore(
        projects: Vec<Project>,
        tasks: Vec<Task>,
        subtasks: Vec<Subtask>,
        sessions: Vec<FocusSession>,
        settings: Option<StoredSettings>,
    ) -> (r: Result<AppDatabase, DbError>)
        ensures
            match r {
                Ok(db) => {
                    &&& db.wf()
                    &&& db@ == (DbView {
                        projects: views(projects@),
                        tasks: views(tasks@),
                        subtasks: views(subtasks@),
                        sessions: views(sessions@),
                        settings,
                    })
                },
                Err(e) => (DbView {
                    projects: views(projects@),
                    tasks: views(tasks@),
                    subtasks: views(subtasks@),
                    sessions: views(sessions@),
                    settings,
                }).refuses_restore() == Some(e),
            },
    {
        let db = AppDatabase { projects, tasks, subtasks, sessions, settings };
        match db.check_restore() {
            Some(e) => Err(e),
            None => {
                proof {
                    lemma_refuses_restore(db@);
                }
                Ok(db)
            },
        }
    }
}

} // verus!
