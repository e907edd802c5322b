//! Reminders that fall due: at every tick of a timer the due ones are
//! marked as fired, and what is to be signalled for them is handed out.

use crate::calendar::now_millis;
use crate::database::queries::ids_of;
use crate::database::{AppDatabase, DbView};
use crate::models::{Task, TaskView};
use vstd::prelude::*;

verus! {

/// The seconds between two ticks of the timer.
pub const POLL_INTERVAL_SECS: u64 = 15;

/// What is signalled for a reminder that has fallen due.
#[derive(Debug, PartialEq, Eq)]
pub struct ReminderPayload {
    pub task_id: String,
    pub title: String,
    pub deadline: Option<i64>,
}

/// What a [`ReminderPayload`] holds.
pub struct ReminderPayloadView {
    pub task_id: Seq<char>,
    pub title: Seq<char>,
    pub deadline: Option<i64>,
}

impl View for ReminderPayload {
    type V = ReminderPayloadView;

    open spec fn view(&self) -> ReminderPayloadView {
        ReminderPayloadView { task_id: self.task_id@, title: self.title@, deadline: self.deadline }
    }
}

/// What is signalled for the tasks of a list, task by task.
pub open spec fn payloads_of(tasks: Seq<TaskView>) -> Seq<ReminderPayloadView> {
    Seq::new(
        tasks.len(),
        |i: int|
            ReminderPayloadView {
                task_id: tasks[i].id,
                title: tasks[i].title,
                deadline: tasks[i].deadline,
            },
    )
}

/// What a list of payloads holds.
pub open spec fn payload_views(list: Seq<ReminderPayload>) -> Seq<ReminderPayloadView> {
    Seq::new(list.len(), |i: int| list[i]@)
}

/// The identities of the tasks of a list.
fn identities(tasks: &Vec<Task>) -> (ids: Vec<String>)
    ensures
        ids.deep_view() == ids_of(crate::database::views(tasks@)),
{
    let mut ids: Vec<String> = Vec::new();
    let mut i: usize = 0;
    while i < tasks.len()
        invariant
            i <= tasks.len(),
            ids.len() == i,
            forall|k: int| 0 <= k < i ==> (#[trigger] ids[k])@ == tasks[k]@.id,
        decreases tasks.len() - i,
    {
        ids.push(tasks[i].id.clone());
        i += 1;
    }
    assert(ids.deep_view() =~= ids_of(crate::database::views(tasks@)));
    ids
}

/// One tick of the timer at the instant `now`: the batch of reminders that
/// are due is marked as fired, all in one step and before anything is
/// signalled, and what is to be signalled for them comes back, the earlier
/// reminder first. With nothing due the store stays as it is.
pub fn fire_due_reminders_at(db: &mut AppDatabase, now: i64) -> (signals: Vec<ReminderPayload>)
    requires
        old(db).wf(),
    ensures
        final(db).wf(),
        payload_views(signals@) == payloads_of(old(db)@.reminders_found(now)),
        final(db)@ == old(db)@.with_reminded(ids_of(old(db)@.reminders_found(now)), now),
        old(db)@.reminders_found(now).len() == 0 ==> final(db)@ == old(db)@,
{
    let due: Vec<Task> = match db.get_due_reminders(now) {
        Ok(list) => list,
        Err(_) => Vec::new(),
    };
    let ghost found: Seq<TaskView> = old(db)@.reminders_found(now);
    let ids: Vec<String> = identities(&due);
    let _ = db.mark_reminded(ids.as_slice(), now);
    proof {
        if found.len() == 0 {
            assert(db@.tasks =~= old(db)@.tasks);
        }
    }
    let mut signals: Vec<ReminderPayload> = Vec::new();
    let mut i: usize = 0;
    while i < due.len()
        invariant
            i <= due.len(),
            signals.len() == i,
            found == crate::database::views(due@),
            forall|k: int|
                0 <= k < i ==> (#[trigger] signals[k])@ == (ReminderPayloadView {
                    task_id: found[k].id,
                    title: found[k].title,
                    deadline: found[k].deadline,
                }),
        decreases due.len() - i,
    {
        signals.push(
            ReminderPayload {
                task_id: due[i].id.clone(),
                title: due[i].title.clone(),
                deadline: due[i].deadline,
            },
        );
        i += 1;
    }
    assert(payload_views(signals@) =~= payloads_of(found));
    signals
}

/// One tick of the timer, now; see [`fire_due_reminders_at`].
pub fn fire_due_reminders(db: &mut AppDatabase) -> (signals: Vec<ReminderPayload>)
    requires
        old(db).wf(),
    ensures
        final(db).wf(),
        exists|now: i64|
            payload_views(signals@) == payloads_of(old(db)@.reminders_found(now)) && final(db)@
                == old(db)@.with_reminded(ids_of(old(db)@.reminders_found(now)), now),
{
    let now: i64 = now_millis();
    fire_due_reminders_at(db, now)
}

/// A reminder that was signalled at one tick is not signalled again at a
/// later one: once the batch of an instant is marked as fired, none of its
/// tasks is found due, at whatever instant one asks.
pub proof fn lemma_fired_not_found_again(v: DbView, now: i64, at: i64)
    ensures
        forall|i: int|
            0 <= i < v.with_reminded(ids_of(v.reminders_found(now)), now).reminders_found(at).len()
                ==> !ids_of(v.reminders_found(now)).contains(
                (#[trigger] v.with_reminded(ids_of(v.reminders_found(now)), now).reminders_found(
                    at,
                )[i]).id,
            ),
{
    let ids = ids_of(v.reminders_found(now));
    let after = v.with_reminded(ids, now);
    let rows = after.tasks_due(at);
    let keys = crate::database::queries::reminder_keys(rows);
    let order = crate::sorting::sorted_positions(keys);
    crate::database::queries::lemma_reminded_twice(v, ids, now, at);
    crate::sorting::lemma_sorted_positions(keys);
    assert forall|i: int| 0 <= i < after.reminders_found(at).len() implies !ids.contains(
        (#[trigger] after.reminders_found(at)[i]).id,
    ) by {
        assert(after.reminders_found(at)[i] == rows[order[i]]);
    }
}

} // verus!
