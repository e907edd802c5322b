//! Projects: adding, renaming, ranking, deleting and listing them.

use crate::calendar::now_millis;
use crate::database::{
    lemma_project_added, lemma_projects_edited, lemma_tasks_edited, views, AppDatabase, DbView,
};
use crate::error::DbError;
use crate::ident::{fresh_id, identity_for};
use crate::models::{Priority, Project, ProjectView, TaskView};
use crate::sorting::{stable_order, SortKey};
use crate::tables::{lemma_filter_all, lemma_filter_one_out, listed};
use vstd::prelude::*;

verus! {

/// The key by which projects are listed: the higher priority first.
pub open spec fn project_key(p: ProjectView) -> SortKey {
    SortKey { first: (2 - p.priority.code()) as i64, second: 0, third: 0, fourth: 0 }
}

/// The keys of the projects of a table, row by row.
pub open spec fn project_keys(projects: Seq<ProjectView>) -> Seq<SortKey> {
    Seq::new(projects.len(), |i: int| project_key(projects[i]))
}

impl ProjectView {
    /// The project under another name.
    pub open spec fn renamed(self, name: Seq<char>) -> ProjectView {
        ProjectView { name, ..self }
    }

    /// The project with another priority.
    pub open spec fn ranked(self, priority: Priority) -> ProjectView {
        ProjectView { priority, ..self }
    }
}

impl TaskView {
    /// The task as it is once the project `id` is gone: it belongs to no
    /// project if it belonged to that one.
    pub open spec fn detached_from(self, id: Seq<char>) -> TaskView {
        if self.project_id == Some(id) {
            TaskView { project_id: None, ..self }
        } else {
            self
        }
    }
}

impl DbView {
    /// The store with one more project.
    pub open spec fn with_project(self, p: ProjectView) -> DbView {
        DbView { projects: self.projects.push(p), ..self }
    }

    /// Why the store refuses a new project, if it does: `EmptyField` for an
    /// empty identity, name or colour, else `DuplicateId` for an identity
    /// that a project has already.
    pub open spec fn refuses_project(self, p: ProjectView) -> Option<DbError> {
        if p.id.len() == 0 || p.name.len() == 0 || p.color.len() == 0 {
            Some(DbError::EmptyField)
        } else if self.has_project(p.id) {
            Some(DbError::DuplicateId)
        } else {
            None
        }
    }

    /// Whether `after` and `r` are what comes of asking the store to add
    /// the project `p`: it is added and handed back, or the store refuses
    /// as [`DbView::refuses_project`] says and stays as it is.
    pub open spec fn adds_project(self, after: DbView, p: ProjectView, r: Result<Project, DbError>)
        -> bool {
        match r {
            Ok(added) => {
                &&& self.refuses_project(p) is None
                &&& added@ == p
                &&& after == self.with_project(p)
            },
            Err(e) => self.refuses_project(p) == Some(e) && after == self,
        }
    }

    /// The store in which the project `id`, if there is one, has the name
    /// `name`.
    pub open spec fn with_project_renamed(self, id: Seq<char>, name: Seq<char>) -> DbView {
        DbView {
            projects: self.projects.map_values(
                |p: ProjectView|
                    if p.id == id {
                        p.renamed(name)
                    } else {
                        p
                    },
            ),
            ..self
        }
    }

    /// The store in which the project `id`, if there is one, has the
    /// priority `priority`.
    pub open spec fn with_project_ranked(self, id: Seq<char>, priority: Priority) -> DbView {
        DbView {
            projects: self.projects.map_values(
                |p: ProjectView|
                    if p.id == id {
                        p.ranked(priority)
                    } else {
                        p
                    },
            ),
            ..self
        }
    }

    /// The store without the project `id`: its tasks stay, and belong to no
    /// project.
    pub open spec fn without_project(self, id: Seq<char>) -> DbView {
        DbView {
            projects: self.projects.filter(|p: ProjectView| p.id != id),
            tasks: self.tasks.map_values(|t: TaskView| t.detached_from(id)),
            ..self
        }
    }

    /// The projects as they are listed: the higher priority first, and
    /// projects of one priority in the order in which they were stored.
    pub open spec fn projects_listed(self) -> Seq<ProjectView> {
        listed(self.projects, project_keys(self.projects))
    }
}

/// The key by which a project is listed.
fn key_of_project(p: &Project) -> (key: SortKey)
    ensures
        key == project_key(p@),
{
    SortKey { first: 2 - p.priority.to_int() as i64, second: 0, third: 0, fourth: 0 }
}

impl AppDatabase {
    /// Adds a project at the instant `now`. Refused with `EmptyField` where
    /// the identity, the name or the colour is empty, and with
    /// `DuplicateId` where a project has the identity already.
    pub fn add_project_at(
        &mut self,
        id: String,
        name: String,
        color: String,
        priority: Priority,
        now: i64,
    ) -> (r: Result<Project, DbError>)
        requires
            old(self).wf(),
        ensures
            final(self).wf(),
            old(self)@.adds_project(
                final(self)@,
                ProjectView { id: id@, name: name@, color: color@, priority, created_at: now },
                r,
            ),
    {
        if id.as_str().is_empty() || name.as_str().is_empty() || color.as_str().is_empty() {
            return Err(DbError::EmptyField);
        }
        if self.find_project(&id).is_some() {
            return Err(DbError::DuplicateId);
        }
        let project = Project { id, name, color, priority, created_at: now };
        let copy: Project = project.clone();
        proof {
            lemma_project_added(self@, project@);
        }
        self.projects.push(project);
        assert(self@.projects =~= old(self)@.projects.push(copy@));
        Ok(copy)
    }

    /// Adds a project, created now; see [`AppDatabase::add_project_at`]. An
    /// empty `id` has an identity drawn for it. Whatever the clock says and
    /// whichever identity is drawn, the outcome is that of adding the
    /// project under that identity at that instant. Refused with
    /// `EmptyField` where the name or the colour is empty, and with
    /// `DuplicateId` where a project has the identity already.
    pub fn add_project(&mut self, id: String, name: String, color: String, priority: Priority) -> (r:
        Result<Project, DbError>)
        requires
            old(self).wf(),
        ensures
            final(self).wf(),
            exists|used: Seq<char>, now: i64|
                identity_for(id@, used) && #[trigger] old(self)@.adds_project(
                    final(self)@,
                    ProjectView { id: used, name: name@, color: color@, priority, created_at: now },
                    r,
                ),
            id@.len() > 0 && name@.len() > 0 && color@.len() > 0 && !old(self)@.has_project(id@)
                ==> r is Ok,
            id@.len() > 0 && old(self)@.has_project(id@) ==> r is Err,
            name@.len() == 0 || color@.len() == 0 ==> r is Err,
            old(self)@.projects.len() == 0 && name@.len() > 0 && color@.len() > 0 ==> r is Ok,
    {
        let id: String = if id.as_str().is_empty() {
            fresh_id()
        } else {
            id
        };
        let now: i64 = now_millis();
        self.add_project_at(id, name, color, priority, now)
    }

    /// Gives the project `id` the name `name`. With no such project the store
    /// stays as it is.
    pub fn update_project(&mut self, id: &str, name: String) -> (r: Result<(), DbError>)
        requires
            old(self).wf(),
        ensures
            final(self).wf(),
            r is Ok,
            final(self)@ == old(self)@.with_project_renamed(id@, name@),
    {
        let key: String = id.to_owned();
        match self.find_project(&key) {
            Some(i) => {
                self.projects[i].name = name;
            },
            None => {},
        }
        proof {
            assert(self@.projects =~= old(self)@.with_project_renamed(id@, name@).projects);
            lemma_projects_edited(old(self)@, self@);
        }
        Ok(())
    }

    /// Gives the project `id` the priority `priority`. With no such project
    /// the store stays as it is.
    pub fn update_project_priority(&mut self, id: &str, priority: Priority) -> (r: Result<
        (),
        DbError,
    >)
        requires
            old(self).wf(),
        ensures
            final(self).wf(),
            r is Ok,
            final(self)@ == old(self)@.with_project_ranked(id@, priority),
    {
        let key: String = id.to_owned();
        match self.find_project(&key) {
            Some(i) => {
                self.projects[i].priority = priority;
            },
            None => {},
        }
        proof {
            assert(self@.projects =~= old(self)@.with_project_ranked(id@, priority).projects);
            lemma_projects_edited(old(self)@, self@);
        }
        Ok(())
    }

    /// Deletes the project `id`. Its tasks stay and belong to no project.
    /// With no such project the store stays as it is.
    pub fn delete_project(&mut self, id: &str) -> (r: Result<(), DbError>)
        requires
            old(self).wf(),
        ensures
            final(self).wf(),
            r is Ok,
            final(self)@ == old(self)@.without_project(id@),
            !old(self)@.has_project(id@) ==> final(self)@ == old(self)@,
    {
        let key: String = id.to_owned();
        let ghost keep = |p: ProjectView| p.id != id@;
        match self.find_project(&key) {
            None => {
                proof {
                    lemma_filter_all(self@.projects, keep);
                    assert forall|i: int| 0 <= i < self@.tasks.len() implies (
                    #[trigger] self@.tasks[i]).detached_from(id@) == self@.tasks[i] by {
                        if self@.tasks[i].project_id == Some(id@) {
                            assert(self@.has_project(id@));
                        }
                    }
                    assert(self@.tasks =~= old(self)@.without_project(id@).tasks);
                }
            },
            Some(at) => {
                let mut i: usize = 0;
                while i < self.tasks.len()
                    invariant
                        i <= self.tasks.len(),
                        self.tasks.len() == old(self).tasks.len(),
                        self.projects == old(self).projects,
                        self.subtasks == old(self).subtasks,
                        self.sessions == old(self).sessions,
                        self.settings == old(self).settings,
                        key@ == id@,
                        forall|j: int|
                            0 <= j < i ==> (#[trigger] self@.tasks[j]) == old(
                                self,
                            )@.tasks[j].detached_from(id@),
                        forall|j: int|
                            i <= j < self.tasks.len() ==> (#[trigger] self@.tasks[j]) == old(
                                self,
                            )@.tasks[j],
                    decreases self.tasks.len() - i,
                {
                    let ghost prev: DbView = self@;
                    let belongs: bool = match &self.tasks[i].project_id {
                        Some(p) => *p == key,
                        None => false,
                    };
                    if belongs {
                        self.tasks[i].project_id = None;
                    }
                    proof {
                        assert(self@.tasks[i as int] == prev.tasks[i as int].detached_from(id@));
                        assert forall|j: int| 0 <= j < self.tasks.len() && j != i implies (
                        #[trigger] self@.tasks[j]) == prev.tasks[j] by {}
                    }
                    i += 1;
                }
                proof {
                    assert(self@.tasks =~= old(self)@.without_project(id@).tasks);
                    lemma_tasks_edited(old(self)@, self@);
                    lemma_filter_one_out(self@.projects, keep, at as int);
                }
                let ghost mid: DbView = self@;
                self.projects.remove(at);
                proof {
                    assert(self@.projects =~= mid.projects.remove(at as int));
                    let w = self@;
                    assert forall|k: int| 0 <= k < w.tasks.len() implies match (
                    #[trigger] w.tasks[k]).project_id {
                        Some(q) => w.has_project(q),
                        None => true,
                    } by {
                        match w.tasks[k].project_id {
                            Some(q) => {
                                assert(mid.tasks[k].project_id == Some(q));
                                assert(q != id@);
                                assert(mid.has_project(q));
                                let c = choose|c: int|
                                    0 <= c < mid.projects.len() && #[trigger] mid.projects[c].id
                                        == q;
                                if c < at {
                                    assert(w.projects[c].id == q);
                                } else {
                                    assert(w.projects[c - 1].id == q);
                                }
                            },
                            None => {},
                        }
                    }
                    assert forall|a: int, b: int| 0 <= a < b < w.projects.len() implies (
                    #[trigger] w.projects[a]).id != (#[trigger] w.projects[b]).id by {
                        let a0 = if a < at { a } else { a + 1 };
                        let b0 = if b < at { b } else { b + 1 };
                        assert(mid.projects[a0].id != mid.projects[b0].id);
                    }
                }
            },
        }
        Ok(())
    }

    /// The projects, the higher priority first; projects of one priority in
    /// the order in which they were stored.
    pub fn get_projects(&self) -> (r: Result<Vec<Project>, DbError>)
        ensures
            r matches Ok(list) && views(list@) == self@.projects_listed(),
    {
        let mut keys: Vec<SortKey> = Vec::new();
        let mut i: usize = 0;
        while i < self.projects.len()
            invariant
                i <= self.projects.len(),
                keys.len() == i,
                forall|j: int| 0 <= j < i ==> #[trigger] keys[j] == project_key(self@.projects[j]),
            decreases self.projects.len() - i,
        {
            keys.push(key_of_project(&self.projects[i]));
            i += 1;
        }
        assert(keys@ =~= project_keys(self@.projects));
        let order: Vec<usize> = stable_order(&keys);
        let mut list: Vec<Project> = Vec::new();
        let mut k: usize = 0;
        while k < order.len()
            invariant
                k <= order.len(),
                order.len() == self.projects.len(),
                list.len() == k,
                forall|j: int| 0 <= j < order.len() ==> #[trigger] order[j] < self.projects.len(),
                forall|j: int| 0 <= j < k ==> (#[trigger] list[j])@ == self@.projects[order[j] as int],
            decreases order.len() - k,
        {
            list.push(self.projects[order[k]].clone());
            k += 1;
        }
        assert(views(list@) =~= self@.projects_listed());
        Ok(list)
    }
}

} // verus!
