//! Focus sessions: a log of timed stretches of work, added to and never
//! shortened.

use crate::calendar::now_millis;
use crate::database::{lemma_sessions_edited, AppDatabase, DbView};
use crate::error::DbError;
use crate::ident::fresh_id;
use crate::models::{FocusSession, FocusSessionView};
use vstd::prelude::*;

verus! {

impl DbView {
    /// Why the store refuses a new focus session, if it does: an empty
    /// identity, a task that is not there, or an identity that a session
    /// has already; asked in this order.
    pub open spec fn refuses_session(self, id: Seq<char>, task_id: Seq<char>) -> Option<DbError> {
        if id.len() == 0 {
            Some(DbError::EmptyField)
        } else if !self.has_task(task_id) {
            Some(DbError::UnknownTask)
        } else if self.has_session(id) {
            Some(DbError::DuplicateId)
        } else {
            None
        }
    }

    /// The store with a focus session begun: no minutes yet, not completed,
    /// not ended.
    pub open spec fn with_session_started(self, id: Seq<char>, task_id: Seq<char>, now: i64)
        -> DbView {
        DbView {
            sessions: self.sessions.push(
                FocusSessionView {
                    id,
                    task_id,
                    duration_minutes: 0,
                    completed: false,
                    started_at: now,
                    ended_at: None,
                },
            ),
            ..self
        }
    }

    /// Whether `after` and `r` are what comes of asking the store to begin,
    /// at the instant `now`, a focus session on the task `task_id` under
    /// the identity `id`: the session is begun and its identity handed
    /// back, or the store refuses as [`DbView::refuses_session`] says and
    /// stays as it is.
    pub open spec fn starts_session(
        self,
        after: DbView,
        task_id: Seq<char>,
        id: Seq<char>,
        now: i64,
        r: Result<String, DbError>,
    ) -> bool {
        match r {
            Ok(given) => {
                &&& self.refuses_session(id, task_id) is None
                &&& given@ == id
                &&& after == self.with_session_started(id, task_id, now)
            },
            Err(e) => self.refuses_session(id, task_id) == Some(e) && after == self,
        }
    }

    /// The store in which the focus session `id`, if there is one, has
    /// ended at the instant `now` after `minutes` minutes, completed or
    /// not.
    pub open spec fn with_session_finished(
        self,
        id: Seq<char>,
        minutes: i32,
        completed: bool,
        now: i64,
    ) -> DbView {
        DbView {
            sessions: self.sessions.map_values(
                |s: FocusSessionView|
                    if s.id == id {
                        FocusSessionView {
                            duration_minutes: minutes,
                            completed,
                            ended_at: Some(now),
                            ..s
                        }
                    } else {
                        s
                    },
            ),
            ..self
        }
    }
}

impl AppDatabase {
    /// Begins, at the instant `now`, a focus session on the task `task_id`
    /// under the identity `id`, and gives the identity back. Refused as
    /// [`DbView::refuses_session`] says.
    pub fn start_focus_session_at(&mut self, task_id: String, id: String, now: i64) -> (r: Result<
        String,
        DbError,
    >)
        requires
            old(self).wf(),
        ensures
            final(self).wf(),
            old(self)@.starts_session(final(self)@, task_id@, id@, now, r),
    {
        if id.as_str().is_empty() {
            return Err(DbError::EmptyField);
        }
        if self.find_task(&task_id).is_none() {
            return Err(DbError::UnknownTask);
        }
        if self.find_session(&id).is_some() {
            return Err(DbError::DuplicateId);
        }
        let given: String = id.clone();
        let session = FocusSession {
            id,
            task_id,
            duration_minutes: 0,
            completed: false,
            started_at: now,
            ended_at: None,
        };
        self.sessions.push(session);
        proof {
            let w = self@;
            assert(w.sessions =~= old(self)@.with_session_started(id@, task_id@, now).sessions);
            assert forall|a: int, b: int| 0 <= a < b < w.sessions.len() implies (
            #[trigger] w.sessions[a]).id != (#[trigger] w.sessions[b]).id by {
                if b < old(self)@.sessions.len() {
                    assert(old(self)@.sessions[a].id != old(self)@.sessions[b].id);
                } else {
                    assert(old(self)@.sessions[a].id != id@);
                }
            }
        }
        Ok(given)
    }

    /// Begins a focus session on the task `task_id` now, under an identity
    /// that is drawn for it, and gives the identity back; see
    /// [`AppDatabase::start_focus_session_at`]. Whatever the clock says and
    /// whichever identity is drawn, the outcome is that of beginning the
    /// session under that identity at that instant. Refused with
    /// `UnknownTask` where the task is not there, and with `DuplicateId`
    /// should the identity drawn be taken.
    pub fn start_focus_session(&mut self, task_id: String) -> (r: Result<String, DbError>)
        requires
            old(self).wf(),
        ensures
            final(self).wf(),
            exists|id: Seq<char>, now: i64|
                id.len() == 36 && #[trigger] old(self)@.starts_session(
                    final(self)@,
                    task_id@,
                    id,
                    now,
                    r,
                ),
            !old(self)@.has_task(task_id@) ==> r == Err::<String, DbError>(DbError::UnknownTask),
            old(self)@.sessions.len() == 0 && old(self)@.has_task(task_id@) ==> r is Ok,
    {
        let id: String = fresh_id();
        let now: i64 = now_millis();
        self.start_focus_session_at(task_id, id, now)
    }

    /// Ends the focus session `id` at the instant `now`: it has lasted
    /// `mins` minutes and is completed or not, as `comp` says. With no such
    /// session the store stays as it is.
    pub fn finish_focus_session_at(&mut self, id: String, mins: i32, comp: bool, now: i64) -> (r:
        Result<(), DbError>)
        requires
            old(self).wf(),
        ensures
            final(self).wf(),
            r is Ok,
            final(self)@ == old(self)@.with_session_finished(id@, mins, comp, now),
    {
        match self.find_session(&id) {
            Some(i) => {
                self.sessions[i].duration_minutes = mins;
                self.sessions[i].completed = comp;
                self.sessions[i].ended_at = Some(now);
                proof {
                    let target = old(self)@.with_session_finished(id@, mins, comp, now);
                    assert forall|j: int| 0 <= j < self@.sessions.len() implies (
                    #[trigger] self@.sessions[j]) == target.sessions[j] by {
                        if j < i {
                            assert(old(self)@.sessions[j].id != old(self)@.sessions[i as int].id);
                        } else if j > i {
                            assert(old(self)@.sessions[i as int].id != old(self)@.sessions[j].id);
                        }
                    }
                    assert(self@.sessions =~= target.sessions);
                    lemma_sessions_edited(old(self)@, self@);
                }
            },
            None => {
                assert(self@.sessions =~= old(self)@.with_session_finished(
                    id@,
                    mins,
                    comp,
                    now,
                ).sessions);
            },
        }
        Ok(())
    }

    /// Ends the focus session `id` now: it has lasted `mins` minutes and is
    /// completed or not, as `comp` says. With no such session the store
    /// stays as it is.
    pub fn finish_focus_session(&mut self, id: String, mins: i32, comp: bool) -> (r: Result<
        (),
        DbError,
    >)
        requires
            old(self).wf(),
        ensures
            final(self).wf(),
            r is Ok,
            exists|now: i64|
                final(self)@ == old(self)@.with_session_finished(id@, mins, comp, now),
    {
        let now: i64 = now_millis();
        self.finish_focus_session_at(id, mins, comp, now)
    }
}

} // verus!
