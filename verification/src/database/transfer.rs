//! Taking a bundle of projects, tasks and settings into the store: rows
//! that the store has are overwritten, rows that it lacks are added, and a
//! bundle that cannot be taken whole is not taken at all.

use crate::calendar::now_millis;
use crate::database::{
    lemma_project_added, lemma_projects_edited, lemma_task_added, lemma_tasks_edited, views,
    AppDatabase, DbView, StoredSettings,
};
use crate::error::DbError;
use crate::database::projects::project_keys;
use crate::database::queries::task_keys;
use crate::models::{AppSettings, Project, ProjectView, Task, TaskView};
use crate::sorting::{lemma_sorted_positions, sorted_positions};
use crate::tables::lemma_filter_all;
use vstd::prelude::*;

verus! {

/// The version of the bundles that are written.
pub const BUNDLE_VERSION: u32 = 1;

/// A snapshot of the projects, the tasks and the settings of a store.
#[derive(Debug, PartialEq, Eq)]
pub struct Bundle {
    pub version: u32,
    /// Milliseconds since the Unix epoch.
    pub exported_at: i64,
    pub projects: Vec<Project>,
    pub tasks: Vec<Task>,
    pub settings: AppSettings,
}

impl ProjectView {
    /// The project as it is once a bundle has overwritten it: name, colour
    /// and priority are the bundle's; the time of creation stays.
    pub open spec fn overwritten_by(self, p: ProjectView) -> ProjectView {
        ProjectView { name: p.name, color: p.color, priority: p.priority, ..self }
    }
}

impl TaskView {
    /// The task as it is once a bundle has overwritten it: everything is
    /// the bundle's but the time of creation, the archive flag and the
    /// place in the manual order, which stay.
    pub open spec fn overwritten_by(self, t: TaskView) -> TaskView {
        TaskView {
            created_at: self.created_at,
            is_archived: self.is_archived,
            sort_order: self.sort_order,
            ..t
        }
    }

    /// The task as it is added from a bundle: outside the archive and at
    /// the front of the manual order.
    pub open spec fn as_imported(self) -> TaskView {
        TaskView { is_archived: false, sort_order: 0, ..self }
    }
}

/// Whether a project of the table has the identity.
pub open spec fn project_listed(table: Seq<ProjectView>, id: Seq<char>) -> bool {
    exists|i: int| 0 <= i < table.len() && #[trigger] table[i].id == id
}

/// Whether a task of the table has the identity.
pub open spec fn task_listed(table: Seq<TaskView>, id: Seq<char>) -> bool {
    exists|i: int| 0 <= i < table.len() && #[trigger] table[i].id == id
}

/// The table once a project is taken in: overwriting the project with its
/// identity, or added at the end.
pub open spec fn upsert_project(table: Seq<ProjectView>, p: ProjectView) -> Seq<ProjectView> {
    if project_listed(table, p.id) {
        table.map_values(
            |q: ProjectView|
                if q.id == p.id {
                    q.overwritten_by(p)
                } else {
                    q
                },
        )
    } else {
        table.push(p)
    }
}

/// The table once the projects are taken in, one after the other.
pub open spec fn upsert_projects(table: Seq<ProjectView>, ps: Seq<ProjectView>) -> Seq<ProjectView>
    decreases ps.len(),
{
    if ps.len() == 0 {
        table
    } else {
        upsert_project(upsert_projects(table, ps.drop_last()), ps.last())
    }
}

/// The table once a task is taken in: overwriting the task with its
/// identity, or added at the end.
pub open spec fn upsert_task(table: Seq<TaskView>, t: TaskView) -> Seq<TaskView> {
    if task_listed(table, t.id) {
        table.map_values(
            |q: TaskView|
                if q.id == t.id {
                    q.overwritten_by(t)
                } else {
                    q
                },
        )
    } else {
        table.push(t.as_imported())
    }
}

/// The table once the tasks are taken in, one after the other.
pub open spec fn upsert_tasks(table: Seq<TaskView>, ts: Seq<TaskView>) -> Seq<TaskView>
    decreases ts.len(),
{
    if ts.len() == 0 {
        table
    } else {
        upsert_task(upsert_tasks(table, ts.drop_last()), ts.last())
    }
}

impl DbView {
    /// Why the store refuses a bundle, if it does: `InvalidRecord` where a
    /// task of the bundle breaks a rule of its life, `UnknownProject` where
    /// one names a project that is neither in the store nor in the bundle.
    pub open spec fn refuses_import(self, ps: Seq<ProjectView>, ts: Seq<TaskView>) -> Option<
        DbError,
    > {
        if exists|i: int| 0 <= i < ts.len() && !(#[trigger] ts[i]).lifecycle_ok() {
            Some(DbError::InvalidRecord)
        } else if exists|i: int|
            0 <= i < ts.len() && ((#[trigger] ts[i]).project_id matches Some(p) && !self.has_project(
                p,
            ) && !project_listed(ps, p)) {
            Some(DbError::UnknownProject)
        } else {
            None
        }
    }

    /// The store once a bundle is taken in at the instant `now`.
    pub open spec fn imported(
        self,
        ps: Seq<ProjectView>,
        ts: Seq<TaskView>,
        settings: AppSettings,
        now: i64,
    ) -> DbView {
        DbView {
            projects: upsert_projects(self.projects, ps),
            tasks: upsert_tasks(self.tasks, ts),
            settings: Some(StoredSettings { values: settings, updated_at: now }),
            ..self
        }
    }
}

/// Taking in a project keeps the identities that the table has and adds
/// that of the project.
pub proof fn lemma_upsert_project_ids(table: Seq<ProjectView>, p: ProjectView)
    ensures
        forall|id: Seq<char>|
            project_listed(upsert_project(table, p), id) <==> project_listed(table, id) || id
                == p.id,
        upsert_project(table, p).len() >= table.len(),
        forall|i: int|
            0 <= i < table.len() ==> (#[trigger] upsert_project(table, p)[i]).id == table[i].id,
{
    let next = upsert_project(table, p);
    assert forall|id: Seq<char>| project_listed(next, id) <==> project_listed(table, id) || id
        == p.id by {
        if project_listed(table, id) {
            let i = choose|i: int| 0 <= i < table.len() && #[trigger] table[i].id == id;
            assert(next[i].id == id);
        }
        if id == p.id && !project_listed(table, p.id) {
            assert(next[table.len() as int].id == id);
        }
        if project_listed(next, id) {
            let i = choose|i: int| 0 <= i < next.len() && #[trigger] next[i].id == id;
            if i < table.len() {
                assert(table[i].id == id);
            }
        }
    }
}

/// Taking in projects keeps the identities that the table has and adds
/// those of the projects.
pub proof fn lemma_upsert_projects_ids(table: Seq<ProjectView>, ps: Seq<ProjectView>)
    ensures
        forall|id: Seq<char>|
            project_listed(upsert_projects(table, ps), id) <==> project_listed(table, id)
                || project_listed(ps, id),
    decreases ps.len(),
{
    if ps.len() > 0 {
        let front = ps.drop_last();
        lemma_upsert_projects_ids(table, front);
        lemma_upsert_project_ids(upsert_projects(table, front), ps.last());
        assert forall|id: Seq<char>| project_listed(ps, id) <==> project_listed(front, id) || id
            == ps.last().id by {
            if project_listed(front, id) {
                let i = choose|i: int| 0 <= i < front.len() && #[trigger] front[i].id == id;
                assert(ps[i].id == id);
            }
            if id == ps.last().id {
                assert(ps[ps.len() - 1].id == id);
            }
            if project_listed(ps, id) {
                let i = choose|i: int| 0 <= i < ps.len() && #[trigger] ps[i].id == id;
                if i < front.len() {
                    assert(front[i].id == id);
                }
            }
        }
    }
}

impl AppDatabase {
    /// Takes a project in.
    fn take_project(&mut self, p: Project)
        requires
            old(self).wf(),
        ensures
            final(self).wf(),
            final(self)@ == (DbView {
                projects: upsert_project(old(self)@.projects, p@),
                ..old(self)@
            }),
    {
        match self.find_project(&p.id) {
            Some(i) => {
                self.projects[i].name = p.name;
                self.projects[i].color = p.color;
                self.projects[i].priority = p.priority;
                proof {
                    let target = upsert_project(old(self)@.projects, p@);
                    assert forall|j: int| 0 <= j < self@.projects.len() implies (
                    #[trigger] self@.projects[j]) == target[j] by {
                        if j < i {
                            assert(old(self)@.projects[j].id != old(self)@.projects[i as int].id);
                        } else if j > i {
                            assert(old(self)@.projects[i as int].id != old(self)@.projects[j].id);
                        }
                    }
                    assert(self@.projects =~= target);
                    lemma_projects_edited(old(self)@, self@);
                }
            },
            None => {
                proof {
                    lemma_project_added(self@, p@);
                }
                self.projects.push(p);
                assert(self@.projects =~= upsert_project(old(self)@.projects, p@));
            },
        }
    }

    /// Takes a task in.
    fn take_task(&mut self, t: Task)
        requires
            old(self).wf(),
            t@.lifecycle_ok(),
            t@.project_id matches Some(p) ==> old(self)@.has_project(p),
        ensures
            final(self).wf(),
            final(self)@ == (DbView { tasks: upsert_task(old(self)@.tasks, t@), ..old(self)@ }),
    {
        let mut t = t;
        match self.find_task(&t.id) {
            Some(i) => {
                let ghost bundle: TaskView = t@;
                t.created_at = self.tasks[i].created_at;
                t.is_archived = self.tasks[i].is_archived;
                t.sort_order = self.tasks[i].sort_order;
                assert(t@ == old(self)@.tasks[i as int].overwritten_by(bundle));
                self.tasks[i] = t;
                proof {
                    let target = upsert_task(old(self)@.tasks, bundle);
                    assert forall|j: int| 0 <= j < self@.tasks.len() implies (
                    #[trigger] self@.tasks[j]) == target[j] by {
                        if j < i {
                            assert(old(self)@.tasks[j].id != old(self)@.tasks[i as int].id);
                        } else if j > i {
                            assert(old(self)@.tasks[i as int].id != old(self)@.tasks[j].id);
                        }
                    }
                    assert(self@.tasks =~= target);
                    lemma_tasks_edited(old(self)@, self@);
                }
            },
            None => {
                let ghost bundle: TaskView = t@;
                t.is_archived = false;
                t.sort_order = 0;
                proof {
                    lemma_task_added(self@, t@);
                }
                let ghost added: TaskView = t@;
                self.tasks.push(t);
                assert(self@.tasks =~= upsert_task(old(self)@.tasks, bundle));
            },
        }
    }

    /// Whether a project of the store or of the list has the identity.
    fn project_known(&self, ps: &Vec<Project>, id: &String) -> (r: bool)
        ensures
            r == (self@.has_project(id@) || project_listed(views(ps@), id@)),
    {
        if self.find_project(id).is_some() {
            return true;
        }
        let mut i: usize = 0;
        while i < ps.len()
            invariant
                i <= ps.len(),
                forall|j: int| 0 <= j < i ==> (#[trigger] views(ps@)[j]).id != id@,
            decreases ps.len() - i,
        {
            if ps[i].id == *id {
                assert(views(ps@)[i as int].id == id@);
                return true;
            }
            i += 1;
        }
        false
    }

    /// Why the store refuses a bundle, if it does.
    fn check_import(&self, ps: &Vec<Project>, ts: &Vec<Task>) -> (r: Option<DbError>)
        ensures
            r == self@.refuses_import(views(ps@), views(ts@)),
    {
        let mut i: usize = 0;
        while i < ts.len()
            invariant
                i <= ts.len(),
                forall|j: int| 0 <= j < i ==> (#[trigger] views(ts@)[j]).lifecycle_ok(),
            decreases ts.len() - i,
        {
            let done: bool = match ts[i].status {
                crate::models::Status::Done => true,
                _ => false,
            };
            if ts[i].completed_at.is_some() != done || (ts[i].remind_at.is_some()
                && ts[i].reminded_at.is_some()) {
                assert(!views(ts@)[i as int].lifecycle_ok());
                return Some(DbError::InvalidRecord);
            }
            i += 1;
        }
        let mut k: usize = 0;
        while k < ts.len()
            invariant
                k <= ts.len(),
                forall|j: int| 0 <= j < ts.len() ==> (#[trigger] views(ts@)[j]).lifecycle_ok(),
                forall|j: int|
                    0 <= j < k ==> !((#[trigger] views(ts@)[j]).project_id matches Some(p)
                        && !self@.has_project(p) && !project_listed(views(ps@), p)),
            decreases ts.len() - k,
        {
            if let Some(p) = &ts[k].project_id {
                if !self.project_known(ps, p) {
                    assert(views(ts@)[k as int].project_id == Some(p@));
                    return Some(DbError::UnknownProject);
                }
            }
            k += 1;
        }
        None
    }

    /// The snapshot of the store at the instant `now`: the projects and the
    /// tasks as they are listed, and the settings, which are the initial
    /// ones where none were saved.
    pub fn export_data_at(&self, now: i64) -> (bundle: Bundle)
        ensures
            bundle.version == BUNDLE_VERSION,
            bundle.exported_at == now,
            views(bundle.projects@) == self@.projects_listed(),
            views(bundle.tasks@) == self@.tasks_found(None, None, None),
            bundle.settings == match self@.settings {
                Some(stored) => stored.values,
                None => AppSettings::initial(),
            },
    {
        let projects: Vec<Project> = match self.get_projects() {
            Ok(list) => list,
            Err(_) => Vec::new(),
        };
        let tasks: Vec<Task> = match self.get_tasks(None, None, None) {
            Ok(list) => list,
            Err(_) => Vec::new(),
        };
        let settings: AppSettings = match self.get_settings() {
            Ok(s) => s,
            Err(_) => AppSettings::default(),
        };
        Bundle { version: BUNDLE_VERSION, exported_at: now, projects, tasks, settings }
    }

    /// The snapshot of the store as of now; see
    /// [`AppDatabase::export_data_at`].
    pub fn export_data(&self) -> (bundle: Bundle)
        ensures
            bundle.version == BUNDLE_VERSION,
            views(bundle.projects@) == self@.projects_listed(),
            views(bundle.tasks@) == self@.tasks_found(None, None, None),
            bundle.settings == match self@.settings {
                Some(stored) => stored.values,
                None => AppSettings::initial(),
            },
    {
        let now: i64 = now_millis();
        self.export_data_at(now)
    }

    /// Takes a bundle in at the instant `now`, in one step: each project
    /// and each task of the bundle overwrites the row with its identity or
    /// is added, in the order of the bundle, and the settings take the
    /// place of those saved. Refused as [`DbView::refuses_import`] says; a
    /// refused bundle leaves the store as it was.
    pub fn import_data_at(
        &mut self,
        projects: Vec<Project>,
        tasks: Vec<Task>,
        settings: AppSettings,
        now: i64,
    ) -> (r: Result<(), DbError>)
        requires
            old(self).wf(),
        ensures
            final(self).wf(),
            match r {
                Ok(_) => {
                    &&& old(self)@.refuses_import(views(projects@), views(tasks@)) is None
                    &&& final(self)@ == old(self)@.imported(
                        views(projects@),
                        views(tasks@),
                        settings,
                        now,
                    )
                },
                Err(e) => {
                    &&& old(self)@.refuses_import(views(projects@), views(tasks@)) == Some(e)
                    &&& final(self)@ == old(self)@
                },
            },
    {
        if let Some(e) = self.check_import(&projects, &tasks) {
            return Err(e);
        }
        let ghost ps: Seq<ProjectView> = views(projects@);
        let ghost ts: Seq<TaskView> = views(tasks@);
        let mut i: usize = 0;
        assert(ps.take(0) =~= Seq::<ProjectView>::empty());
        while i < projects.len()
            invariant
                i <= projects.len(),
                ps == views(projects@),
                self.wf(),
                self@ == (DbView {
                    projects: upsert_projects(old(self)@.projects, ps.take(i as int)),
                    ..old(self)@
                }),
            decreases projects.len() - i,
        {
            assert(ps.take(i + 1).drop_last() =~= ps.take(i as int));
            assert(ps.take(i + 1).last() == projects@[i as int]@);
            self.take_project(projects[i].clone());
            i += 1;
        }
        let ghost mid: DbView = self@;
        proof {
            assert(ps.take(projects.len() as int) =~= ps);
            lemma_upsert_projects_ids(old(self)@.projects, ps);
            assert forall|j: int| 0 <= j < ts.len() implies (#[trigger] ts[j]).lifecycle_ok() && (
            ts[j].project_id matches Some(p) ==> project_listed(mid.projects, p)) by {
                match ts[j].project_id {
                    Some(p) => {
                        assert(old(self)@.has_project(p) || project_listed(ps, p));
                        assert(old(self)@.has_project(p) == project_listed(old(self)@.projects, p));
                    },
                    None => {},
                }
            }
        }
        let mut k: usize = 0;
        assert(ts.take(0) =~= Seq::<TaskView>::empty());
        while k < tasks.len()
            invariant
                k <= tasks.len(),
                ts == views(tasks@),
                self.wf(),
                forall|j: int| 0 <= j < ts.len() ==> (#[trigger] ts[j]).lifecycle_ok(),
                forall|j: int|
                    0 <= j < ts.len() ==> ((#[trigger] ts[j]).project_id matches Some(p)
                        ==> project_listed(mid.projects, p)),
                self@ == (DbView { tasks: upsert_tasks(mid.tasks, ts.take(k as int)), ..mid }),
            decreases tasks.len() - k,
        {
            proof {
                assert(ts.take(k + 1).drop_last() =~= ts.take(k as int));
                assert(ts.take(k + 1).last() == tasks@[k as int]@);
                assert(ts[k as int].lifecycle_ok());
                assert(ts[k as int].project_id matches Some(p) ==> self@.has_project(p)) by {
                    match ts[k as int].project_id {
                        Some(p) => {
                            assert(project_listed(mid.projects, p));
                            assert(self@.has_project(p) == project_listed(self@.projects, p));
                        },
                        None => {},
                    }
                }
            }
            self.take_task(tasks[k].clone());
            k += 1;
        }
        assert(ts.take(tasks.len() as int) =~= ts);
        let ghost done: DbView = self@;
        self.settings = Some(StoredSettings { values: settings, updated_at: now });
        assert(self@ == (DbView { settings: self@.settings, ..done }));
        Ok(())
    }

    /// Takes a bundle in now; see [`AppDatabase::import_data_at`]. Whatever
    /// the clock says, the rows are those of the bundle taken in, and the
    /// settings are the bundle's.
    pub fn import_data(&mut self, projects: Vec<Project>, tasks: Vec<Task>, settings: AppSettings)
        -> (r: Result<(), DbError>)
        requires
            old(self).wf(),
        ensures
            final(self).wf(),
            match r {
                Ok(_) => {
                    &&& old(self)@.refuses_import(views(projects@), views(tasks@)) is None
                    &&& exists|now: i64|
                        final(self)@ == old(self)@.imported(
                            views(projects@),
                            views(tasks@),
                            settings,
                            now,
                        )
                },
                Err(e) => {
                    &&& old(self)@.refuses_import(views(projects@), views(tasks@)) == Some(e)
                    &&& final(self)@ == old(self)@
                },
            },
    {
        let now: i64 = now_millis();
        self.import_data_at(projects, tasks, settings, now)
    }
}

/// Where the last project with an identity stands in a list; -1 where the
/// list has none.
pub open spec fn last_project(ps: Seq<ProjectView>, id: Seq<char>) -> int
    decreases ps.len(),
{
    if ps.len() == 0 {
        -1
    } else if ps.last().id == id {
        ps.len() - 1
    } else {
        last_project(ps.drop_last(), id)
    }
}

/// Where the last task with an identity stands in a list; -1 where the list
/// has none.
pub open spec fn last_task(ts: Seq<TaskView>, id: Seq<char>) -> int
    decreases ts.len(),
{
    if ts.len() == 0 {
        -1
    } else if ts.last().id == id {
        ts.len() - 1
    } else {
        last_task(ts.drop_last(), id)
    }
}

/// What [`last_project`] finds has the identity, and the list has a project
/// with an identity exactly where it finds one.
pub proof fn lemma_last_project(ps: Seq<ProjectView>, id: Seq<char>)
    ensures
        -1 <= last_project(ps, id) < ps.len(),
        last_project(ps, id) >= 0 ==> ps[last_project(ps, id)].id == id,
        last_project(ps, id) >= 0 <==> project_listed(ps, id),
    decreases ps.len(),
{
    if ps.len() > 0 {
        let front = ps.drop_last();
        lemma_last_project(front, id);
        if project_listed(front, id) {
            let i = choose|i: int| 0 <= i < front.len() && #[trigger] front[i].id == id;
            assert(ps[i].id == id);
        }
        if ps.last().id == id {
            assert(ps[ps.len() - 1].id == id);
        }
        if project_listed(ps, id) {
            let i = choose|i: int| 0 <= i < ps.len() && #[trigger] ps[i].id == id;
            if i < front.len() {
                assert(front[i].id == id);
            }
        }
    }
}

/// What [`last_task`] finds has the identity, and the list has a task with
/// an identity exactly where it finds one.
pub proof fn lemma_last_task(ts: Seq<TaskView>, id: Seq<char>)
    ensures
        -1 <= last_task(ts, id) < ts.len(),
        last_task(ts, id) >= 0 ==> ts[last_task(ts, id)].id == id,
        last_task(ts, id) >= 0 <==> task_listed(ts, id),
    decreases ts.len(),
{
    if ts.len() > 0 {
        let front = ts.drop_last();
        lemma_last_task(front, id);
        if task_listed(front, id) {
            let i = choose|i: int| 0 <= i < front.len() && #[trigger] front[i].id == id;
            assert(ts[i].id == id);
        }
        if ts.last().id == id {
            assert(ts[ts.len() - 1].id == id);
        }
        if task_listed(ts, id) {
            let i = choose|i: int| 0 <= i < ts.len() && #[trigger] ts[i].id == id;
            if i < front.len() {
                assert(front[i].id == id);
            }
        }
    }
}

/// Once projects are taken in, each project of the table whose identity the
/// list has holds what the last such project of the list holds.
pub proof fn lemma_upserted_projects_agree(table: Seq<ProjectView>, ps: Seq<ProjectView>)
    ensures
        forall|i: int|
            0 <= i < upsert_projects(table, ps).len() && last_project(
                ps,
                upsert_projects(table, ps)[i].id,
            ) >= 0 ==> (#[trigger] upsert_projects(table, ps)[i]).overwritten_by(
                ps[last_project(ps, upsert_projects(table, ps)[i].id)],
            ) == upsert_projects(table, ps)[i],
    decreases ps.len(),
{
    if ps.len() > 0 {
        let front = ps.drop_last();
        let p = ps.last();
        let before = upsert_projects(table, front);
        let after = upsert_projects(table, ps);
        lemma_upserted_projects_agree(table, front);
        assert forall|i: int|
            0 <= i < after.len() && last_project(ps, after[i].id) >= 0 implies (
        #[trigger] after[i]).overwritten_by(ps[last_project(ps, after[i].id)]) == after[i] by {
            lemma_last_project(front, after[i].id);
            if i < before.len() && before[i].id != p.id {
                assert(after[i] == before[i]);
                assert(ps[last_project(front, before[i].id)] == front[last_project(
                    front,
                    before[i].id,
                )]);
            }
        }
    }
}

/// Taking projects into a table that has all their identities overwrites,
/// row by row: each project of the table whose identity the list has is
/// overwritten by the last such project of the list, and no row is added.
pub proof fn lemma_upsert_known_projects(table: Seq<ProjectView>, ps: Seq<ProjectView>)
    requires
        forall|j: int| 0 <= j < ps.len() ==> project_listed(table, (#[trigger] ps[j]).id),
    ensures
        upsert_projects(table, ps).len() == table.len(),
        forall|i: int|
            0 <= i < table.len() ==> #[trigger] upsert_projects(table, ps)[i] == if last_project(
                ps,
                table[i].id,
            ) >= 0 {
                table[i].overwritten_by(ps[last_project(ps, table[i].id)])
            } else {
                table[i]
            },
    decreases ps.len(),
{
    if ps.len() > 0 {
        let front = ps.drop_last();
        let p = ps.last();
        let before = upsert_projects(table, front);
        let after = upsert_projects(table, ps);
        assert forall|j: int| 0 <= j < front.len() implies project_listed(
            table,
            (#[trigger] front[j]).id,
        ) by {
            assert(front[j] == ps[j]);
        }
        lemma_upsert_known_projects(table, front);
        assert(project_listed(before, p.id)) by {
            assert(ps[ps.len() - 1] == p);
            let k = choose|k: int| 0 <= k < table.len() && #[trigger] table[k].id == p.id;
            lemma_last_project(front, table[k].id);
            assert(before[k].id == p.id);
        }
        assert forall|i: int| 0 <= i < table.len() implies #[trigger] after[i] == if last_project(
            ps,
            table[i].id,
        ) >= 0 {
            table[i].overwritten_by(ps[last_project(ps, table[i].id)])
        } else {
            table[i]
        } by {
            lemma_last_project(front, table[i].id);
            if last_project(front, table[i].id) >= 0 {
                assert(ps[last_project(front, table[i].id)] == front[last_project(
                    front,
                    table[i].id,
                )]);
            }
        }
    }
}

/// Taking the same projects in a second time changes nothing.
pub proof fn lemma_upsert_projects_twice(table: Seq<ProjectView>, ps: Seq<ProjectView>)
    ensures
        upsert_projects(upsert_projects(table, ps), ps) == upsert_projects(table, ps),
{
    let once = upsert_projects(table, ps);
    lemma_upsert_projects_ids(table, ps);
    assert forall|j: int| 0 <= j < ps.len() implies project_listed(once, (#[trigger] ps[j]).id) by {
        assert(project_listed(ps, ps[j].id));
    }
    lemma_upsert_known_projects(once, ps);
    lemma_upserted_projects_agree(table, ps);
    assert(upsert_projects(once, ps) =~= once);
}

/// Taking in a task keeps the identities that the table has and adds that
/// of the task.
pub proof fn lemma_upsert_task_ids(table: Seq<TaskView>, t: TaskView)
    ensures
        forall|id: Seq<char>|
            task_listed(upsert_task(table, t), id) <==> task_listed(table, id) || id == t.id,
        upsert_task(table, t).len() >= table.len(),
        forall|i: int| 0 <= i < table.len() ==> (#[trigger] upsert_task(table, t)[i]).id == table[i].id,
{
    let next = upsert_task(table, t);
    assert forall|id: Seq<char>| task_listed(next, id) <==> task_listed(table, id) || id
        == t.id by {
        if task_listed(table, id) {
            let i = choose|i: int| 0 <= i < table.len() && #[trigger] table[i].id == id;
            assert(next[i].id == id);
        }
        if id == t.id && !task_listed(table, t.id) {
            assert(next[table.len() as int].id == id);
        }
        if task_listed(next, id) {
            let i = choose|i: int| 0 <= i < next.len() && #[trigger] next[i].id == id;
            if i < table.len() {
                assert(table[i].id == id);
            }
        }
    }
}

/// Taking in tasks keeps the identities that the table has and adds those
/// of the tasks.
pub proof fn lemma_upsert_tasks_ids(table: Seq<TaskView>, ts: Seq<TaskView>)
    ensures
        forall|id: Seq<char>|
            task_listed(upsert_tasks(table, ts), id) <==> task_listed(table, id) || task_listed(
                ts,
                id,
            ),
    decreases ts.len(),
{
    if ts.len() > 0 {
        let front = ts.drop_last();
        lemma_upsert_tasks_ids(table, front);
        lemma_upsert_task_ids(upsert_tasks(table, front), ts.last());
        assert forall|id: Seq<char>| task_listed(ts, id) <==> task_listed(front, id) || id
            == ts.last().id by {
            lemma_last_task(ts, id);
            lemma_last_task(front, id);
        }
    }
}

/// Once tasks are taken in, each task of the table whose identity the list
/// has holds what the last such task of the list holds.
pub proof fn lemma_upserted_tasks_agree(table: Seq<TaskView>, ts: Seq<TaskView>)
    ensures
        forall|i: int|
            0 <= i < upsert_tasks(table, ts).len() && last_task(ts, upsert_tasks(table, ts)[i].id)
                >= 0 ==> (#[trigger] upsert_tasks(table, ts)[i]).overwritten_by(
                ts[last_task(ts, upsert_tasks(table, ts)[i].id)],
            ) == upsert_tasks(table, ts)[i],
    decreases ts.len(),
{
    if ts.len() > 0 {
        let front = ts.drop_last();
        let t = ts.last();
        let before = upsert_tasks(table, front);
        let after = upsert_tasks(table, ts);
        lemma_upserted_tasks_agree(table, front);
        assert forall|i: int| 0 <= i < after.len() && last_task(ts, after[i].id) >= 0 implies (
        #[trigger] after[i]).overwritten_by(ts[last_task(ts, after[i].id)]) == after[i] by {
            lemma_last_task(front, after[i].id);
            if i < before.len() && before[i].id != t.id {
                assert(after[i] == before[i]);
                assert(ts[last_task(front, before[i].id)] == front[last_task(front, before[i].id)]);
            }
        }
    }
}

/// Taking tasks into a table that has all their identities overwrites, row
/// by row: each task of the table whose identity the list has is
/// overwritten by the last such task of the list, and no row is added.
pub proof fn lemma_upsert_known_tasks(table: Seq<TaskView>, ts: Seq<TaskView>)
    requires
        forall|j: int| 0 <= j < ts.len() ==> task_listed(table, (#[trigger] ts[j]).id),
    ensures
        upsert_tasks(table, ts).len() == table.len(),
        forall|i: int|
            0 <= i < table.len() ==> #[trigger] upsert_tasks(table, ts)[i] == if last_task(
                ts,
                table[i].id,
            ) >= 0 {
                table[i].overwritten_by(ts[last_task(ts, table[i].id)])
            } else {
                table[i]
            },
    decreases ts.len(),
{
    if ts.len() > 0 {
        let front = ts.drop_last();
        let t = ts.last();
        let before = upsert_tasks(table, front);
        let after = upsert_tasks(table, ts);
        assert forall|j: int| 0 <= j < front.len() implies task_listed(
            table,
            (#[trigger] front[j]).id,
        ) by {
            assert(front[j] == ts[j]);
        }
        lemma_upsert_known_tasks(table, front);
        assert(task_listed(before, t.id)) by {
            assert(ts[ts.len() - 1] == t);
            let k = choose|k: int| 0 <= k < table.len() && #[trigger] table[k].id == t.id;
            lemma_last_task(front, table[k].id);
            assert(before[k].id == t.id);
        }
        assert forall|i: int| 0 <= i < table.len() implies #[trigger] after[i] == if last_task(
            ts,
            table[i].id,
        ) >= 0 {
            table[i].overwritten_by(ts[last_task(ts, table[i].id)])
        } else {
            table[i]
        } by {
            lemma_last_task(front, table[i].id);
            if last_task(front, table[i].id) >= 0 {
                assert(ts[last_task(front, table[i].id)] == front[last_task(front, table[i].id)]);
            }
        }
    }
}

/// Taking the same tasks in a second time changes nothing.
pub proof fn lemma_upsert_tasks_twice(table: Seq<TaskView>, ts: Seq<TaskView>)
    ensures
        upsert_tasks(upsert_tasks(table, ts), ts) == upsert_tasks(table, ts),
{
    let once = upsert_tasks(table, ts);
    lemma_upsert_tasks_ids(table, ts);
    assert forall|j: int| 0 <= j < ts.len() implies task_listed(once, (#[trigger] ts[j]).id) by {
        assert(task_listed(ts, ts[j].id));
    }
    lemma_upsert_known_tasks(once, ts);
    lemma_upserted_tasks_agree(table, ts);
    assert(upsert_tasks(once, ts) =~= once);
}

/// A bundle that the store takes in is taken in a second time as well, and
/// the second time changes nothing but the instant at which the settings
/// count as saved.
pub proof fn lemma_import_twice(
    v: DbView,
    ps: Seq<ProjectView>,
    ts: Seq<TaskView>,
    settings: AppSettings,
    now: i64,
    again: i64,
)
    requires
        v.refuses_import(ps, ts) is None,
    ensures
        v.imported(ps, ts, settings, now).refuses_import(ps, ts) is None,
        v.imported(ps, ts, settings, now).imported(ps, ts, settings, again) == (DbView {
            settings: Some(StoredSettings { values: settings, updated_at: again }),
            ..v.imported(ps, ts, settings, now)
        }),
        v.imported(ps, ts, settings, now).imported(ps, ts, settings, now) == v.imported(
            ps,
            ts,
            settings,
            now,
        ),
{
    let once = v.imported(ps, ts, settings, now);
    lemma_upsert_projects_twice(v.projects, ps);
    lemma_upsert_tasks_twice(v.tasks, ts);
    lemma_upsert_projects_ids(v.projects, ps);
    assert forall|i: int| 0 <= i < ts.len() implies !((#[trigger] ts[i]).project_id matches Some(p)
        && !once.has_project(p) && !project_listed(ps, p)) by {
        match ts[i].project_id {
            Some(p) => {
                assert(v.has_project(p) || project_listed(ps, p));
                assert(v.has_project(p) == project_listed(v.projects, p));
                assert(once.has_project(p) == project_listed(once.projects, p));
            },
            None => {},
        }
    }
}

/// A store takes its own snapshot in, and nothing changes but the settings,
/// which are then saved as they were exported.
pub proof fn lemma_import_of_export(v: DbView, settings: AppSettings, now: i64)
    requires
        v.wf(),
    ensures
        v.refuses_import(v.projects_listed(), v.tasks_found(None, None, None)) is None,
        v.imported(v.projects_listed(), v.tasks_found(None, None, None), settings, now) == (DbView {
            settings: Some(StoredSettings { values: settings, updated_at: now }),
            ..v
        }),
{
    let ps = v.projects_listed();
    let ts = v.tasks_found(None, None, None);
    let p_order = sorted_positions(project_keys(v.projects));
    lemma_sorted_positions(project_keys(v.projects));
    let all = |t: TaskView| crate::database::queries::task_matches(t, None, None);
    lemma_filter_all(v.tasks, all);
    let t_order = sorted_positions(task_keys(v.tasks));
    lemma_sorted_positions(task_keys(v.tasks));
    assert(ts.len() == v.tasks.len());
    assert forall|j: int| 0 <= j < ps.len() implies project_listed(
        v.projects,
        (#[trigger] ps[j]).id,
    ) by {
        assert(ps[j] == v.projects[p_order[j]]);
    }
    assert forall|j: int| 0 <= j < ts.len() implies task_listed(v.tasks, (#[trigger] ts[j]).id) by {
        assert(ts[j] == v.tasks[t_order[j]]);
    }
    lemma_upsert_known_projects(v.projects, ps);
    lemma_upsert_known_tasks(v.tasks, ts);
    assert forall|i: int| 0 <= i < v.projects.len() implies #[trigger] upsert_projects(
        v.projects,
        ps,
    )[i] == v.projects[i] by {
        let last = last_project(ps, v.projects[i].id);
        lemma_last_project(ps, v.projects[i].id);
        if last >= 0 {
            let k = p_order[last];
            assert(ps[last] == v.projects[k]);
            if k < i {
                assert(v.projects[k].id != v.projects[i].id);
            } else if k > i {
                assert(v.projects[i].id != v.projects[k].id);
            }
        }
    }
    assert forall|i: int| 0 <= i < v.tasks.len() implies #[trigger] upsert_tasks(v.tasks, ts)[i]
        == v.tasks[i] by {
        let last = last_task(ts, v.tasks[i].id);
        lemma_last_task(ts, v.tasks[i].id);
        if last >= 0 {
            let k = t_order[last];
            assert(ts[last] == v.tasks[k]);
            if k < i {
                assert(v.tasks[k].id != v.tasks[i].id);
            } else if k > i {
                assert(v.tasks[i].id != v.tasks[k].id);
            }
        }
    }
    assert(upsert_projects(v.projects, ps) =~= v.projects);
    assert(upsert_tasks(v.tasks, ts) =~= v.tasks);
    assert forall|j: int| 0 <= j < ts.len() implies (#[trigger] ts[j]).lifecycle_ok() && !(
    ts[j].project_id matches Some(p) && !v.has_project(p) && !project_listed(ps, p)) by {
        assert(ts[j] == v.tasks[t_order[j]]);
        assert(v.tasks[t_order[j]].lifecycle_ok());
    }
}

} // verus!
