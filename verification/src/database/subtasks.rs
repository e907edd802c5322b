//! Subtasks: the steps of a task.

use crate::calendar::now_millis;
use crate::database::{lemma_subtasks_edited, views, AppDatabase, DbView};
use crate::error::DbError;
use crate::ident::fresh_id;
use crate::models::{Subtask, SubtaskView};
use crate::sorting::{stable_order, SortKey};
use crate::tables::{lemma_filter_all, lemma_filter_one_out, lemma_filter_push, listed};
use vstd::prelude::*;

verus! {

/// The key by which the subtasks of a task are listed: by their place in
/// the manual order, then the older first.
pub open spec fn subtask_key(s: SubtaskView) -> SortKey {
    SortKey { first: s.sort_order as i64, second: s.created_at, third: 0, fourth: 0 }
}

/// The keys of the subtasks of a list, row by row.
pub open spec fn subtask_keys(subtasks: Seq<SubtaskView>) -> Seq<SortKey> {
    Seq::new(subtasks.len(), |i: int| subtask_key(subtasks[i]))
}

/// The highest place in the manual order among the subtasks of the task
/// `task_id`; -1 where it has none.
pub open spec fn highest_place(subtasks: Seq<SubtaskView>, task_id: Seq<char>) -> int
    decreases subtasks.len(),
{
    if subtasks.len() == 0 {
        -1
    } else {
        let rest = highest_place(subtasks.drop_last(), task_id);
        if subtasks.last().task_id == task_id && subtasks.last().sort_order > rest {
            subtasks.last().sort_order as int
        } else {
            rest
        }
    }
}

/// The place that a new subtask of the task `task_id` gets: behind the last
/// one, or 0 where there is no room behind it.
pub open spec fn next_place(subtasks: Seq<SubtaskView>, task_id: Seq<char>) -> i32 {
    if highest_place(subtasks, task_id) < i32::MAX {
        (highest_place(subtasks, task_id) + 1) as i32
    } else {
        0
    }
}

impl DbView {
    /// The subtasks of the task `task_id`, in the order in which they were
    /// stored.
    pub open spec fn subtasks_of(self, task_id: Seq<char>) -> Seq<SubtaskView> {
        self.subtasks.filter(|s: SubtaskView| s.task_id == task_id)
    }

    /// The subtasks of the task `task_id` as they are listed: by their
    /// place in the manual order, then the older first, then in the order
    /// in which they were stored.
    pub open spec fn subtasks_listed(self, task_id: Seq<char>) -> Seq<SubtaskView> {
        listed(self.subtasks_of(task_id), subtask_keys(self.subtasks_of(task_id)))
    }

    /// Why the store refuses a new subtask, if it does: an empty identity
    /// or title, a task that is not there, or an identity that a subtask
    /// has already; asked in this order.
    pub open spec fn refuses_subtask(self, id: Seq<char>, task_id: Seq<char>, title: Seq<char>)
        -> Option<DbError> {
        if id.len() == 0 || title.len() == 0 {
            Some(DbError::EmptyField)
        } else if !self.has_task(task_id) {
            Some(DbError::UnknownTask)
        } else if self.has_subtask(id) {
            Some(DbError::DuplicateId)
        } else {
            None
        }
    }

    /// The store with one more subtask.
    pub open spec fn with_subtask(self, s: SubtaskView) -> DbView {
        DbView { subtasks: self.subtasks.push(s), ..self }
    }

    /// Whether `after` and `r` are what comes of asking the store to add to
    /// the task `task_id`, at the instant `now`, a subtask with the
    /// identity `id` and the title `title`: the subtask is added, open and
    /// behind the task's other subtasks, and handed back; or the store
    /// refuses as [`DbView::refuses_subtask`] says and stays as it is.
    pub open spec fn adds_subtask(
        self,
        after: DbView,
        task_id: Seq<char>,
        title: Seq<char>,
        id: Seq<char>,
        now: i64,
        r: Result<Subtask, DbError>,
    ) -> bool {
        match r {
            Ok(s) => {
                &&& self.refuses_subtask(id, task_id, title) is None
                &&& s@ == (SubtaskView {
                    id,
                    task_id,
                    title,
                    completed: false,
                    sort_order: next_place(self.subtasks, task_id),
                    created_at: now,
                })
                &&& after == self.with_subtask(s@)
            },
            Err(e) => self.refuses_subtask(id, task_id, title) == Some(e) && after == self,
        }
    }

    /// The store in which the subtask `id`, if there is one, is done where
    /// it was open and open where it was done.
    pub open spec fn with_subtask_toggled(self, id: Seq<char>) -> DbView {
        DbView {
            subtasks: self.subtasks.map_values(
                |s: SubtaskView|
                    if s.id == id {
                        SubtaskView { completed: !s.completed, ..s }
                    } else {
                        s
                    },
            ),
            ..self
        }
    }

    /// The store in which the subtask `id`, if there is one, has the place
    /// `place` in the manual order.
    pub open spec fn with_subtask_placed(self, id: Seq<char>, place: i32) -> DbView {
        DbView {
            subtasks: self.subtasks.map_values(
                |s: SubtaskView|
                    if s.id == id {
                        SubtaskView { sort_order: place, ..s }
                    } else {
                        s
                    },
            ),
            ..self
        }
    }

    /// The store in which each subtask named in `ids` has the place of its
    /// name in the list as its place in the manual order; a subtask named
    /// twice has the later place. Names of subtasks that are not there are
    /// passed over.
    pub open spec fn with_subtasks_ordered(self, ids: Seq<Seq<char>>) -> DbView
        decreases ids.len(),
    {
        if ids.len() == 0 {
            self
        } else {
            self.with_subtasks_ordered(ids.drop_last()).with_subtask_placed(
                ids.last(),
                (ids.len() - 1) as i32,
            )
        }
    }

    /// The store without the subtask `id`.
    pub open spec fn without_subtask(self, id: Seq<char>) -> DbView {
        DbView { subtasks: self.subtasks.filter(|s: SubtaskView| s.id != id), ..self }
    }
}

/// A store stays well formed when a subtask with a new identity is added to
/// a task that is there.
pub proof fn lemma_subtask_added(v: DbView, s: SubtaskView)
    requires
        v.wf(),
        !v.has_subtask(s.id),
        v.has_task(s.task_id),
    ensures
        v.with_subtask(s).wf(),
{
    let w = v.with_subtask(s);
    assert forall|i: int| 0 <= i < w.subtasks.len() implies w.has_task(
        (#[trigger] w.subtasks[i]).task_id,
    ) by {
        if i < v.subtasks.len() {
            assert(w.subtasks[i] == v.subtasks[i]);
        }
    }
}

/// A store stays well formed when a subtask leaves it.
pub proof fn lemma_subtask_removed(v: DbView, at: int)
    requires
        v.wf(),
        0 <= at < v.subtasks.len(),
    ensures
        (DbView { subtasks: v.subtasks.remove(at), ..v }).wf(),
{
    let w = DbView { subtasks: v.subtasks.remove(at), ..v };
    assert forall|a: int, b: int| 0 <= a < b < w.subtasks.len() implies (
    #[trigger] w.subtasks[a]).id != (#[trigger] w.subtasks[b]).id by {
        let a0 = if a < at { a } else { a + 1 };
        let b0 = if b < at { b } else { b + 1 };
        assert(v.subtasks[a0].id != v.subtasks[b0].id);
    }
    assert forall|i: int| 0 <= i < w.subtasks.len() implies w.has_task(
        (#[trigger] w.subtasks[i]).task_id,
    ) by {
        let i0 = if i < at { i } else { i + 1 };
        assert(w.subtasks[i] == v.subtasks[i0]);
    }
}

impl AppDatabase {
    /// The subtasks of the task `task_id`: by their place in the manual
    /// order, then the older first, then in the order in which they were
    /// stored.
    pub fn get_subtasks(&self, task_id: &str) -> (r: Result<Vec<Subtask>, DbError>)
        ensures
            r matches Ok(list) && views(list@) == self@.subtasks_listed(task_id@),
    {
        let key: String = task_id.to_owned();
        let ghost of_task = |s: SubtaskView| s.task_id == task_id@;
        let mut picked: Vec<usize> = Vec::new();
        let mut keys: Vec<SortKey> = Vec::new();
        let mut i: usize = 0;
        proof {
            assert(self@.subtasks.take(0) =~= Seq::<SubtaskView>::empty());
            lemma_filter_all(Seq::<SubtaskView>::empty(), of_task);
        }
        while i < self.subtasks.len()
            invariant
                i <= self.subtasks.len(),
                key@ == task_id@,
                of_task == |s: SubtaskView| s.task_id == task_id@,
                picked.len() == keys.len(),
                forall|k: int| 0 <= k < picked.len() ==> #[trigger] picked[k] < i,
                Seq::new(picked.len() as nat, |k: int| self@.subtasks[picked[k] as int])
                    == self@.subtasks.take(i as int).filter(of_task),
                forall|k: int|
                    0 <= k < picked.len() ==> #[trigger] keys[k] == subtask_key(
                        self@.subtasks[picked[k] as int],
                    ),
            decreases self.subtasks.len() - i,
        {
            proof {
                assert(self@.subtasks.take(i + 1) =~= self@.subtasks.take(i as int).push(
                    self@.subtasks[i as int],
                ));
                lemma_filter_push(self@.subtasks.take(i as int), self@.subtasks[i as int], of_task);
            }
            if self.subtasks[i].task_id == key {
                let ghost prior = Seq::new(
                    picked.len() as nat,
                    |k: int| self@.subtasks[picked[k] as int],
                );
                picked.push(i);
                keys.push(
                    SortKey {
                        first: self.subtasks[i].sort_order as i64,
                        second: self.subtasks[i].created_at,
                        third: 0,
                        fourth: 0,
                    },
                );
                assert(Seq::new(picked.len() as nat, |k: int| self@.subtasks[picked[k] as int])
                    =~= prior.push(self@.subtasks[i as int]));
            }
            i += 1;
        }
        assert(self@.subtasks.take(self.subtasks.len() as int) =~= self@.subtasks);
        let ghost rows = self@.subtasks_of(task_id@);
        assert(keys@ =~= subtask_keys(rows));
        let order: Vec<usize> = stable_order(&keys);
        let mut list: Vec<Subtask> = Vec::new();
        let mut k: usize = 0;
        while k < order.len()
            invariant
                k <= order.len(),
                order.len() == picked.len(),
                rows.len() == picked.len(),
                list.len() == k,
                forall|j: int| 0 <= j < order.len() ==> #[trigger] order[j] < picked.len(),
                forall|j: int| 0 <= j < picked.len() ==> #[trigger] picked[j] < self.subtasks.len(),
                forall|j: int|
                    0 <= j < picked.len() ==> self@.subtasks[#[trigger] picked[j] as int] == rows[j],
                forall|j: int| 0 <= j < k ==> (#[trigger] list[j])@ == rows[order[j] as int],
            decreases order.len() - k,
        {
            list.push(self.subtasks[picked[order[k]]].clone());
            k += 1;
        }
        assert(views(list@) =~= self@.subtasks_listed(task_id@));
        Ok(list)
    }

    /// The place that a new subtask of a task gets.
    fn place_for_new_subtask(&self, task_id: &String) -> (place: i32)
        ensures
            place == next_place(self@.subtasks, task_id@),
    {
        let mut highest: i64 = -1;
        let mut i: usize = 0;
        assert(self@.subtasks.take(0) =~= Seq::<SubtaskView>::empty());
        while i < self.subtasks.len()
            invariant
                i <= self.subtasks.len(),
                -1 <= highest <= i32::MAX,
                highest as int == highest_place(self@.subtasks.take(i as int), task_id@),
            decreases self.subtasks.len() - i,
        {
            assert(self@.subtasks.take(i + 1).drop_last() =~= self@.subtasks.take(i as int));
            if self.subtasks[i].task_id == *task_id && self.subtasks[i].sort_order as i64
                > highest {
                highest = self.subtasks[i].sort_order as i64;
            }
            i += 1;
        }
        assert(self@.subtasks.take(self.subtasks.len() as int) =~= self@.subtasks);
        if highest < i32::MAX as i64 {
            (highest + 1) as i32
        } else {
            0
        }
    }

    /// Adds to the task `task_id`, at the instant `now`, a subtask with the
    /// identity `id` and the title `title`. It is open and stands behind
    /// the task's other subtasks. Refused as [`DbView::refuses_subtask`]
    /// says.
    pub fn add_subtask_at(&mut self, task_id: &str, title: &str, id: String, now: i64) -> (r:
        Result<Subtask, DbError>)
        requires
            old(self).wf(),
        ensures
            final(self).wf(),
            old(self)@.adds_subtask(final(self)@, task_id@, title@, id@, now, r),
    {
        if id.as_str().is_empty() || title.is_empty() {
            return Err(DbError::EmptyField);
        }
        let owner: String = task_id.to_owned();
        if self.find_task(&owner).is_none() {
            return Err(DbError::UnknownTask);
        }
        if self.find_subtask(&id).is_some() {
            return Err(DbError::DuplicateId);
        }
        let place: i32 = self.place_for_new_subtask(&owner);
        let subtask = Subtask {
            id,
            task_id: owner,
            title: title.to_owned(),
            completed: false,
            sort_order: place,
            created_at: now,
        };
        let copy: Subtask = subtask.clone();
        proof {
            lemma_subtask_added(self@, subtask@);
        }
        self.subtasks.push(subtask);
        assert(self@.subtasks =~= old(self)@.subtasks.push(copy@));
        Ok(copy)
    }

    /// Adds a subtask to the task `task_id` now, under an identity that is
    /// drawn for it; see [`AppDatabase::add_subtask_at`]. Whatever the
    /// clock says and whichever identity is drawn, the outcome is that of
    /// adding the subtask under that identity at that instant. Refused with
    /// `EmptyField` for an empty title, with `UnknownTask` where the task
    /// is not there, and with `DuplicateId` should the identity drawn be
    /// taken.
    pub fn add_subtask(&mut self, task_id: &str, title: &str) -> (r: Result<Subtask, DbError>)
        requires
            old(self).wf(),
        ensures
            final(self).wf(),
            exists|id: Seq<char>, now: i64|
                id.len() == 36 && #[trigger] old(self)@.adds_subtask(
                    final(self)@,
                    task_id@,
                    title@,
                    id,
                    now,
                    r,
                ),
            title@.len() == 0 ==> r == Err::<Subtask, DbError>(DbError::EmptyField),
            title@.len() > 0 && !old(self)@.has_task(task_id@) ==> r == Err::<Subtask, DbError>(
                DbError::UnknownTask,
            ),
            old(self)@.subtasks.len() == 0 && title@.len() > 0 && old(self)@.has_task(task_id@)
                ==> r is Ok,
    {
        let id: String = fresh_id();
        let now: i64 = now_millis();
        self.add_subtask_at(task_id, title, id, now)
    }

    /// Marks the subtask `id` done where it was open and open where it was
    /// done, and says which it is now. Refused with `NotFound` where there
    /// is no such subtask.
    pub fn toggle_subtask(&mut self, id: &str) -> (r: Result<bool, DbError>)
        requires
            old(self).wf(),
        ensures
            final(self).wf(),
            final(self)@ == old(self)@.with_subtask_toggled(id@),
            match r {
                Ok(now_done) => exists|i: int|
                    0 <= i < old(self)@.subtasks.len() && #[trigger] old(self)@.subtasks[i].id
                        == id@ && now_done == !old(self)@.subtasks[i].completed,
                Err(e) => e == DbError::NotFound && !old(self)@.has_subtask(id@) && final(self)@
                    == old(self)@,
            },
    {
        let key: String = id.to_owned();
        match self.find_subtask(&key) {
            Some(i) => {
                let now_done: bool = !self.subtasks[i].completed;
                self.subtasks[i].completed = now_done;
                proof {
                    assert forall|j: int| 0 <= j < self@.subtasks.len() implies (
                    #[trigger] self@.subtasks[j]) == old(self)@.with_subtask_toggled(
                        id@,
                    ).subtasks[j] by {
                        if j < i {
                            assert(old(self)@.subtasks[j].id != old(self)@.subtasks[i as int].id);
                        } else if j > i {
                            assert(old(self)@.subtasks[i as int].id != old(self)@.subtasks[j].id);
                        }
                    }
                    assert(self@.subtasks =~= old(self)@.with_subtask_toggled(id@).subtasks);
                    lemma_subtasks_edited(old(self)@, self@);
                }
                Ok(now_done)
            },
            None => {
                assert(self@.subtasks =~= old(self)@.with_subtask_toggled(id@).subtasks);
                Err(DbError::NotFound)
            },
        }
    }

    /// Gives the subtask `id` the place `place` in the manual order.
    fn place_subtask(&mut self, id: &String, place: i32)
        requires
            old(self).wf(),
        ensures
            final(self).wf(),
            final(self)@ == old(self)@.with_subtask_placed(id@, place),
    {
        match self.find_subtask(id) {
            Some(i) => {
                self.subtasks[i].sort_order = place;
                proof {
                    assert forall|j: int| 0 <= j < self@.subtasks.len() implies (
                    #[trigger] self@.subtasks[j]) == old(self)@.with_subtask_placed(
                        id@,
                        place,
                    ).subtasks[j] by {
                        if j < i {
                            assert(old(self)@.subtasks[j].id != old(self)@.subtasks[i as int].id);
                        } else if j > i {
                            assert(old(self)@.subtasks[i as int].id != old(self)@.subtasks[j].id);
                        }
                    }
                    assert(self@.subtasks =~= old(self)@.with_subtask_placed(id@, place).subtasks);
                    lemma_subtasks_edited(old(self)@, self@);
                }
            },
            None => {
                assert(self@.subtasks =~= old(self)@.with_subtask_placed(id@, place).subtasks);
            },
        }
    }

    /// Rewrites the manual order of subtasks: each subtask named in
    /// `subtask_ids` gets the place of its name in the list, counted from
    /// 0. Names of subtasks that are not there are passed over.
    pub fn reorder_subtasks(&mut self, subtask_ids: &[String]) -> (r: Result<(), DbError>)
        requires
            old(self).wf(),
            subtask_ids@.len() <= i32::MAX,
        ensures
            final(self).wf(),
            r is Ok,
            final(self)@ == old(self)@.with_subtasks_ordered(subtask_ids.deep_view()),
    {
        let ghost ids: Seq<Seq<char>> = subtask_ids.deep_view();
        let mut i: usize = 0;
        assert(ids.take(0) =~= Seq::<Seq<char>>::empty());
        while i < subtask_ids.len()
            invariant
                i <= subtask_ids.len(),
                subtask_ids@.len() <= i32::MAX,
                ids == subtask_ids.deep_view(),
                self.wf(),
                self@ == old(self)@.with_subtasks_ordered(ids.take(i as int)),
            decreases subtask_ids.len() - i,
        {
            assert(ids.take(i + 1).drop_last() =~= ids.take(i as int));
            assert(ids.take(i + 1).last() == subtask_ids@[i as int]@);
            self.place_subtask(&subtask_ids[i], i as i32);
            i += 1;
        }
        assert(ids.take(subtask_ids.len() as int) =~= ids);
        Ok(())
    }

    /// Deletes the subtask `id`. With no such subtask the store stays as it
    /// is.
    pub fn delete_subtask(&mut self, id: &str) -> (r: Result<(), DbError>)
        requires
            old(self).wf(),
        ensures
            final(self).wf(),
            r is Ok,
            final(self)@ == old(self)@.without_subtask(id@),
            !old(self)@.has_subtask(id@) ==> final(self)@ == old(self)@,
    {
        let key: String = id.to_owned();
        let ghost keep = |s: SubtaskView| s.id != id@;
        match self.find_subtask(&key) {
            Some(at) => {
                proof {
                    lemma_filter_one_out(self@.subtasks, keep, at as int);
                    lemma_subtask_removed(self@, at as int);
                }
                self.subtasks.remove(at);
                assert(self@.subtasks =~= old(self)@.subtasks.remove(at as int));
            },
            None => {
                proof {
                    lemma_filter_all(self@.subtasks, keep);
                }
            },
        }
        Ok(())
    }
}

} // verus!
