use focusflow::database::queries::REMINDER_BATCH;
use focusflow::database::AppDatabase;
use focusflow::error::DbError;
use focusflow::models::{NewTask, Priority, Status, Task};
use focusflow::reminders::{fire_due_reminders, fire_due_reminders_at, ReminderPayload, POLL_INTERVAL_SECS};

fn word(v: &str) -> String {
    v.to_string()
}

fn entry(priority: Priority, deadline: Option<i64>, project: Option<&str>) -> NewTask {
    NewTask {
        id: String::new(),
        project_id: project.map(word),
        title: word("t"),
        description: None,
        priority,
        status: Status::Todo,
        created_at: 0,
        deadline,
        estimated_minutes: None,
        actual_minutes: None,
        tags: Vec::new(),
        remind_at: None,
        repeat_mode: None,
        repeat_days_mask: None,
    }
}

fn names(list: &[Task]) -> Vec<&str> {
    list.iter().map(|t| t.id.as_str()).collect()
}

fn sample() -> AppDatabase {
    let mut db = AppDatabase::new();
    db.add_project_at(word("P"), word("P"), word("c"), Priority::Normal, 0).unwrap();
    db.add_project_at(word("Q"), word("Q"), word("c"), Priority::Normal, 0).unwrap();
    db.add_task_at(&entry(Priority::Low, Some(50), Some("P")), word("low"), 1).unwrap();
    db.add_task_at(&entry(Priority::High, None, Some("P")), word("high-none"), 2).unwrap();
    db.add_task_at(&entry(Priority::High, Some(90), Some("P")), word("high-90"), 3).unwrap();
    db.add_task_at(&entry(Priority::High, Some(40), Some("Q")), word("high-40-q"), 4).unwrap();
    db.add_task_at(&entry(Priority::High, Some(40), Some("P")), word("high-40-old"), 5).unwrap();
    db.add_task_at(&entry(Priority::High, Some(40), Some("P")), word("high-40-new"), 6).unwrap();
    db.add_task_at(&entry(Priority::Normal, Some(10), None), word("normal"), 7).unwrap();
    db.add_task_at(&entry(Priority::High, Some(40), Some("P")), word("high-40-twin"), 6).unwrap();
    // the deadlines brought reminders with them: start without any
    let ids: Vec<String> = db.tasks().iter().map(|t| t.id.clone()).collect();
    for id in ids {
        db.set_task_remind_at(&id, None).unwrap();
    }
    db
}

#[test]
fn tasks_come_by_priority_deadline_and_age() {
    let db = sample();
    let all = db.get_tasks(None, None, None).unwrap();
    assert_eq!(
        names(&all),
        vec![
            "high-40-new",
            "high-40-twin",
            "high-40-old",
            "high-40-q",
            "high-90",
            "high-none",
            "normal",
            "low",
        ]
    );
}

#[test]
fn limit_status_and_project_filters_combine() {
    let mut db = sample();
    for id in ["high-90", "high-40-old", "high-40-q", "low", "normal"] {
        db.set_status_at(id, Status::Done, 100, None).unwrap();
    }
    let found = db.get_tasks(Some(2), Some(Status::Done), Some(word("P"))).unwrap();
    assert_eq!(names(&found), vec!["high-40-old", "high-90"]);
    assert!(found.iter().all(|t| t.status == Status::Done && t.project_id.as_deref() == Some("P")));
    let found = db.get_tasks(None, Some(Status::Done), Some(word("P"))).unwrap();
    assert_eq!(names(&found), vec!["high-40-old", "high-90", "low"]);
    let found = db.get_tasks(None, Some(Status::Done), None).unwrap();
    assert_eq!(names(&found), vec!["high-40-old", "high-40-q", "high-90", "normal", "low"]);
    let found = db.get_tasks(None, None, Some(word("Q"))).unwrap();
    assert_eq!(names(&found), vec!["high-40-q"]);
    let found = db.get_tasks(None, Some(Status::Doing), None).unwrap();
    assert!(found.is_empty());
    let found = db.get_tasks(None, None, Some(word("nowhere"))).unwrap();
    assert!(found.is_empty());
}

#[test]
fn limits_cut_from_the_front() {
    let db = sample();
    assert!(db.get_tasks(Some(0), None, None).unwrap().is_empty());
    assert_eq!(names(&db.get_tasks(Some(1), None, None).unwrap()), vec!["high-40-new"]);
    assert_eq!(db.get_tasks(Some(8), None, None).unwrap().len(), 8);
    assert_eq!(db.get_tasks(Some(100), None, None).unwrap().len(), 8);
    assert_eq!(db.get_tasks(Some(i32::MAX), None, None).unwrap().len(), 8);
    assert_eq!(db.get_tasks(Some(-1), None, None).unwrap().len(), 8);
    assert_eq!(db.get_tasks(Some(i32::MIN), None, None).unwrap().len(), 8);
}

#[test]
fn due_reminders_are_the_open_tasks_whose_time_has_come() {
    let mut db = sample();
    db.set_task_remind_at("low", Some(300)).unwrap();
    db.set_task_remind_at("normal", Some(100)).unwrap();
    db.set_task_remind_at("high-90", Some(200)).unwrap();
    db.set_task_remind_at("high-none", Some(100)).unwrap();
    db.set_task_remind_at("high-40-q", Some(999)).unwrap();
    db.set_status_at("high-90", Status::Doing, 5, None).unwrap();
    assert_eq!(names(&db.get_due_reminders(300).unwrap()), vec!["high-none", "normal", "high-90", "low"]);
    assert_eq!(names(&db.get_due_reminders(299).unwrap()), vec!["high-none", "normal", "high-90"]);
    assert_eq!(names(&db.get_due_reminders(100).unwrap()), vec!["high-none", "normal"]);
    assert!(db.get_due_reminders(99).unwrap().is_empty());
    db.set_task_remind_at("high-none", Some(100)).unwrap();
    db.set_status_at("high-none", Status::Done, 5, None).unwrap();
    assert_eq!(names(&db.get_due_reminders(100).unwrap()), vec!["normal"]);
}

#[test]
fn due_reminders_come_in_batches() {
    let mut db = AppDatabase::new();
    for i in 0..(REMINDER_BATCH as i64 + 5) {
        let id = format!("t{}", i);
        db.add_task_at(&entry(Priority::Normal, None, None), id.clone(), i).unwrap();
        db.set_task_remind_at(&id, Some(1000 - i)).unwrap();
    }
    let first = db.get_due_reminders(1000).unwrap();
    assert_eq!(first.len(), 20);
    assert_eq!(first[0].id, "t24");
    assert_eq!(first[19].id, "t5");
    let signals = fire_due_reminders_at(&mut db, 1000);
    assert_eq!(signals.len(), 20);
    let second = fire_due_reminders_at(&mut db, 1000);
    let left: Vec<&str> = second.iter().map(|p| p.task_id.as_str()).collect();
    assert_eq!(left, vec!["t4", "t3", "t2", "t1", "t0"]);
    assert!(fire_due_reminders_at(&mut db, 1000).is_empty());
}

#[test]
fn mark_reminded_is_idempotent() {
    let mut db = sample();
    db.set_task_remind_at("low", Some(300)).unwrap();
    db.set_task_remind_at("normal", Some(100)).unwrap();
    let before = db.tasks().clone();
    let ids = vec![word("low"), word("ghost"), word("high-90"), word("low")];
    assert_eq!(db.mark_reminded(&ids, 500), Ok(()));
    let once = db.tasks().clone();
    let low = once.iter().find(|t| t.id == "low").unwrap();
    assert_eq!((low.remind_at, low.reminded_at), (None, Some(500)));
    let untouched = once.iter().find(|t| t.id == "normal").unwrap();
    assert_eq!((untouched.remind_at, untouched.reminded_at), (Some(100), None));
    // a named task without a reminder is as it was
    let bare = once.iter().find(|t| t.id == "high-90").unwrap();
    assert_eq!((bare.remind_at, bare.reminded_at), (None, None));
    assert_eq!(bare, before.iter().find(|t| t.id == "high-90").unwrap());
    // a second time changes nothing, at the same instant or at another
    assert_eq!(db.mark_reminded(&ids, 500), Ok(()));
    assert_eq!(db.tasks(), &once);
    assert_eq!(db.mark_reminded(&ids, 600), Ok(()));
    assert_eq!(db.tasks(), &once);
    assert_eq!(db.mark_reminded(&[], 700), Ok(()));
    assert_eq!(db.tasks(), &once);
    assert_eq!(db.tasks().iter().find(|t| t.id == "low").unwrap().reminded_at, Some(500));
}

#[test]
fn mark_reminded_leaves_cleared_rows_alone() {
    let mut db = sample();
    db.set_task_remind_at("low", Some(300)).unwrap();
    db.mark_reminded(&[word("low")], 1).unwrap();
    let cleared = db.tasks().clone();
    db.mark_reminded(&[word("low"), word("normal"), word("nobody")], 2).unwrap();
    assert_eq!(db.tasks(), &cleared);
    let low = db.tasks().iter().find(|t| t.id == "low").unwrap();
    assert_eq!((low.remind_at, low.reminded_at), (None, Some(1)));
    // scheduled anew, the reminder can fire again
    db.set_task_remind_at("low", Some(400)).unwrap();
    db.mark_reminded(&[word("low")], 3).unwrap();
    let low = db.tasks().iter().find(|t| t.id == "low").unwrap();
    assert_eq!((low.remind_at, low.reminded_at), (None, Some(3)));
}

#[test]
fn a_tick_marks_before_it_signals() {
    let mut db = sample();
    db.update_task_title("low", word("Water the plants")).unwrap();
    db.set_task_remind_at("low", Some(300)).unwrap();
    db.set_task_remind_at("normal", Some(100)).unwrap();
    db.set_task_remind_at("high-90", Some(900)).unwrap();
    let signals = fire_due_reminders_at(&mut db, 400);
    assert_eq!(
        signals,
        vec![
            ReminderPayload { task_id: word("normal"), title: word("t"), deadline: Some(10) },
            ReminderPayload { task_id: word("low"), title: word("Water the plants"), deadline: Some(50) },
        ]
    );
    let low = db.tasks().iter().find(|t| t.id == "low").unwrap();
    assert_eq!((low.remind_at, low.reminded_at), (None, Some(400)));
    let later = db.tasks().iter().find(|t| t.id == "high-90").unwrap();
    assert_eq!((later.remind_at, later.reminded_at), (Some(900), None));
    assert!(fire_due_reminders_at(&mut db, 400).is_empty());
    assert!(fire_due_reminders_at(&mut db, 899).is_empty());
    assert_eq!(fire_due_reminders_at(&mut db, 900).len(), 1);
}

#[test]
fn a_tick_now_finds_what_is_overdue() {
    let mut db = sample();
    db.set_task_remind_at("low", Some(1_000)).unwrap();
    db.set_task_remind_at("normal", Some(i64::MAX)).unwrap();
    let signals = fire_due_reminders(&mut db);
    assert_eq!(signals.len(), 1);
    assert_eq!(signals[0].task_id, "low");
    assert!(db.tasks().iter().find(|t| t.id == "low").unwrap().reminded_at.unwrap() > 1_600_000_000_000);
    assert!(fire_due_reminders(&mut db).is_empty());
    assert_eq!(POLL_INTERVAL_SECS, 15);
}

#[test]
fn a_snoozed_reminder_falls_due_again() {
    let mut db = sample();
    db.set_task_remind_at("low", Some(300)).unwrap();
    assert_eq!(fire_due_reminders_at(&mut db, 300).len(), 1);
    db.snooze_task_at("low", 1, 300).unwrap();
    assert!(fire_due_reminders_at(&mut db, 60_299).is_empty());
    assert_eq!(fire_due_reminders_at(&mut db, 60_300).len(), 1);
    assert_eq!(db.set_status_at("nobody", Status::Done, 1, None), Err(DbError::NotFound));
}
