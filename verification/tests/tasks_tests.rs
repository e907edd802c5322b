use focusflow::database::{remind_time, AppDatabase};
use focusflow::error::DbError;
use focusflow::models::{AppSettings, NewTask, Priority, Status, Task};

fn draft(title: &str) -> NewTask {
    NewTask {
        id: String::new(),
        project_id: None,
        title: title.to_string(),
        description: None,
        priority: Priority::Normal,
        status: Status::Todo,
        created_at: 0,
        deadline: None,
        estimated_minutes: None,
        actual_minutes: None,
        tags: Vec::new(),
        remind_at: None,
        repeat_mode: None,
        repeat_days_mask: None,
    }
}

fn text(v: &str) -> String {
    v.to_string()
}

fn task<'a>(db: &'a AppDatabase, id: &str) -> &'a Task {
    db.tasks().iter().find(|t| t.id == id).unwrap()
}

fn store_with(ids: &[&str]) -> AppDatabase {
    let mut db = AppDatabase::new();
    for (i, id) in ids.iter().enumerate() {
        db.add_task_at(&draft(id), text(id), i as i64).unwrap();
    }
    db
}

#[test]
fn add_task_fills_in_what_the_store_decides() {
    let mut db = AppDatabase::new();
    let mut d = draft("Write");
    d.status = Status::Done;
    d.created_at = 999;
    d.remind_at = Some(5);
    d.deadline = Some(10_000_000);
    d.estimated_minutes = Some(40);
    d.actual_minutes = Some(7);
    d.description = Some(text("a letter"));
    d.tags = vec![text("x"), text("y")];
    d.repeat_mode = Some(text("weekdays"));
    d.repeat_days_mask = Some(3);
    d.priority = Priority::High;
    let t = db.add_task_at(&d, text("t1"), 1_000_000).unwrap();
    assert_eq!(t.id, "t1");
    assert_eq!(t.title, "Write");
    assert_eq!(t.status, Status::Todo);
    assert_eq!(t.created_at, 1_000_000);
    assert_eq!(t.completed_at, None);
    assert_eq!(t.deadline, Some(10_000_000));
    // thirty minutes of lead: 10_000_000 - 1_800_000
    assert_eq!(t.remind_at, Some(8_200_000));
    assert_eq!(t.reminded_at, None);
    assert_eq!(t.estimated_minutes, Some(40));
    assert_eq!(t.actual_minutes, Some(7));
    assert_eq!(t.description.as_deref(), Some("a letter"));
    assert_eq!(t.tags, vec!["x", "y"]);
    assert_eq!(t.repeat_mode.as_deref(), Some("weekdays"));
    assert_eq!(t.repeat_days_mask, Some(3));
    assert_eq!(t.priority, Priority::High);
    assert!(!t.is_archived);
    assert_eq!(t.sort_order, 0);
    assert_eq!(db.tasks(), &vec![t]);
}

#[test]
fn reminder_is_clamped_to_now() {
    assert_eq!(remind_time(Some(10_000_000), 30, 1_000_000), Some(8_200_000));
    assert_eq!(remind_time(Some(10_000_000), 30, 9_000_000), Some(9_000_000));
    assert_eq!(remind_time(Some(10_000_000), 30, 8_200_000), Some(8_200_000));
    assert_eq!(remind_time(Some(10_000_000), 0, 1), Some(10_000_000));
    assert_eq!(remind_time(Some(5), 30, 100), Some(100));
    assert_eq!(remind_time(None, 30, 100), None);
    assert_eq!(remind_time(Some(i64::MIN), u32::MAX, i64::MIN), Some(i64::MIN));
    assert_eq!(remind_time(Some(i64::MIN), u32::MAX, 7), Some(7));
    assert_eq!(remind_time(Some(i64::MAX), 1, 0), Some(i64::MAX - 60_000));
    assert_eq!(remind_time(Some(i64::MAX), u32::MAX, i64::MAX), Some(i64::MAX));
}

#[test]
fn reminder_follows_the_saved_lead_time() {
    let mut db = AppDatabase::new();
    let mut settings = AppSettings::default();
    settings.reminder_lead_minutes = 10;
    db.save_settings_at(settings, 1).unwrap();
    let mut d = draft("Write");
    d.deadline = Some(10_000_000);
    let t = db.add_task_at(&d, text("t1"), 0).unwrap();
    assert_eq!(t.remind_at, Some(9_400_000));
}

#[test]
fn add_task_validates_in_order() {
    let mut db = AppDatabase::new();
    db.add_task_at(&draft("one"), text("t1"), 0).unwrap();
    let mut lost = draft("");
    lost.project_id = Some(text("nowhere"));
    assert_eq!(db.add_task_at(&lost, text("t1"), 0), Err(DbError::EmptyField));
    assert_eq!(db.add_task_at(&draft("x"), text(""), 0), Err(DbError::EmptyField));
    let mut orphan = draft("x");
    orphan.project_id = Some(text("nowhere"));
    assert_eq!(db.add_task_at(&orphan, text("t1"), 0), Err(DbError::DuplicateId));
    assert_eq!(db.add_task_at(&orphan, text("t2"), 0), Err(DbError::UnknownProject));
    assert_eq!(db.tasks().len(), 1);
}

#[test]
fn add_task_assigns_an_identity_when_none_is_given() {
    let mut db = AppDatabase::new();
    let a = db.add_task(&draft("a")).unwrap();
    let b = db.add_task(&draft("b")).unwrap();
    assert_eq!(a.id.len(), 36);
    assert_ne!(a.id, b.id);
    assert!(a.created_at > 1_600_000_000_000);
    let mut named = draft("c");
    named.id = text("mine");
    assert_eq!(db.add_task(&named).unwrap().id, "mine");
    assert_eq!(db.add_task(&named), Err(DbError::DuplicateId));
    assert_eq!(db.add_task(&draft("")), Err(DbError::EmptyField));
    assert_eq!(db.tasks().len(), 3);
}

#[test]
fn single_field_updates_touch_only_their_field() {
    let mut db = store_with(&["a", "b"]);
    let before_b = task(&db, "b").clone();
    db.update_task_title("a", text("Alpha")).unwrap();
    db.update_task_priority("a", Priority::High).unwrap();
    db.update_task_tags("a", vec![text("t")]).unwrap();
    db.update_task_repeat("a", Some(text("custom")), Some(5)).unwrap();
    db.archive_task("a").unwrap();
    let a = task(&db, "a");
    assert_eq!(a.title, "Alpha");
    assert_eq!(a.priority, Priority::High);
    assert_eq!(a.tags, vec!["t"]);
    assert_eq!(a.repeat_mode.as_deref(), Some("custom"));
    assert_eq!(a.repeat_days_mask, Some(5));
    assert!(a.is_archived);
    assert_eq!(a.status, Status::Todo);
    assert_eq!(a.created_at, 0);
    assert_eq!(task(&db, "b"), &before_b);
    db.unarchive_task("a").unwrap();
    assert!(!task(&db, "a").is_archived);
    db.update_task_repeat("a", None, None).unwrap();
    assert_eq!(task(&db, "a").repeat_mode, None);
    assert_eq!(task(&db, "a").repeat_days_mask, None);
}

#[test]
fn updates_of_a_missing_task_are_quiet_no_ops() {
    let mut db = store_with(&["a"]);
    let before = db.tasks().clone();
    assert_eq!(db.update_task_title("zz", text("x")), Ok(()));
    assert_eq!(db.update_task_priority("zz", Priority::High), Ok(()));
    assert_eq!(db.update_task_deadline_at("zz", Some(5), 1), Ok(()));
    assert_eq!(db.update_task_tags("zz", vec![text("x")]), Ok(()));
    assert_eq!(db.update_task_repeat("zz", Some(text("x")), Some(1)), Ok(()));
    assert_eq!(db.set_task_remind_at("zz", Some(5)), Ok(()));
    assert_eq!(db.snooze_task_at("zz", 5, 1), Ok(()));
    assert_eq!(db.archive_task("zz"), Ok(()));
    assert_eq!(db.unarchive_task("zz"), Ok(()));
    assert_eq!(db.delete_task("zz"), Ok(()));
    assert_eq!(db.tasks(), &before);
}

#[test]
fn a_new_deadline_reschedules_the_reminder() {
    let mut db = store_with(&["a"]);
    db.set_task_remind_at("a", Some(40)).unwrap();
    db.mark_reminded(&[text("a")], 50).unwrap();
    assert_eq!(task(&db, "a").reminded_at, Some(50));
    db.update_task_deadline_at("a", Some(10_000_000), 1_000).unwrap();
    let a = task(&db, "a");
    assert_eq!(a.deadline, Some(10_000_000));
    assert_eq!(a.remind_at, Some(8_200_000));
    assert_eq!(a.reminded_at, None);
    db.update_task_deadline_at("a", Some(10_000_000), 9_999_999).unwrap();
    assert_eq!(task(&db, "a").remind_at, Some(9_999_999));
    db.update_task_deadline_at("a", None, 1_000).unwrap();
    let a = task(&db, "a");
    assert_eq!((a.deadline, a.remind_at, a.reminded_at), (None, None, None));
    db.update_task_deadline("a", Some(i64::MAX)).unwrap();
    let a = task(&db, "a");
    assert_eq!(a.deadline, Some(i64::MAX));
    assert_eq!(a.remind_at, Some(i64::MAX - 1_800_000));
}

#[test]
fn set_remind_at_clears_what_was_reminded() {
    let mut db = store_with(&["a"]);
    db.set_task_remind_at("a", Some(40)).unwrap();
    db.mark_reminded(&[text("a")], 50).unwrap();
    assert_eq!((task(&db, "a").remind_at, task(&db, "a").reminded_at), (None, Some(50)));
    db.set_task_remind_at("a", Some(700)).unwrap();
    let a = task(&db, "a");
    assert_eq!((a.remind_at, a.reminded_at), (Some(700), None));
    db.mark_reminded(&[text("a")], 60).unwrap();
    db.set_task_remind_at("a", None).unwrap();
    let a = task(&db, "a");
    assert_eq!((a.remind_at, a.reminded_at), (None, None));
}

#[test]
fn snooze_adds_minutes_to_now() {
    let mut db = store_with(&["a"]);
    db.set_task_remind_at("a", Some(40)).unwrap();
    db.mark_reminded(&[text("a")], 50).unwrap();
    assert_eq!(task(&db, "a").reminded_at, Some(50));
    assert_eq!(db.snooze_task_at("a", 10, 1_000), Ok(()));
    let a = task(&db, "a");
    assert_eq!((a.remind_at, a.reminded_at), (Some(601_000), None));
    assert_eq!(db.snooze_task_at("a", -1, 1_000), Ok(()));
    assert_eq!(task(&db, "a").remind_at, Some(-59_000));
    assert_eq!(db.snooze_task("a", 5), Ok(()));
    assert!(task(&db, "a").remind_at.unwrap() > 1_600_000_000_000);
    assert_eq!(db.snooze_task("a", 0), Ok(()));
    assert_eq!(db.snooze_task("nobody", 0), Ok(()));
}

#[test]
fn snooze_refuses_what_does_not_fit() {
    let mut db = store_with(&["a"]);
    db.set_task_remind_at("a", Some(7)).unwrap();
    assert_eq!(db.snooze_task_at("a", i64::MAX, 0), Err(DbError::OutOfRange));
    assert_eq!(db.snooze_task_at("a", 1, i64::MAX), Err(DbError::OutOfRange));
    assert_eq!(db.snooze_task_at("a", i64::MIN, 0), Err(DbError::OutOfRange));
    assert_eq!(db.snooze_task_at("zz", i64::MAX, 0), Err(DbError::OutOfRange));
    assert_eq!(db.snooze_task("a", i64::MAX), Err(DbError::OutOfRange));
    assert_eq!(task(&db, "a").remind_at, Some(7));
    assert_eq!(db.snooze_task_at("a", 153_722_867_280_912, 55_807), Ok(()));
    // 153_722_867_280_912 minutes are 9_223_372_036_854_720_000 ms: with 55_807 the last instant
    assert_eq!(task(&db, "a").remind_at, Some(i64::MAX));
    assert_eq!(db.snooze_task_at("a", 153_722_867_280_912, 55_808), Err(DbError::OutOfRange));
}

#[test]
fn reorder_tasks_writes_positions() {
    let mut db = store_with(&["a", "b", "c", "d"]);
    let order = vec![text("c"), text("ghost"), text("a"), text("b")];
    assert_eq!(db.reorder_tasks(&order), Ok(()));
    assert_eq!(task(&db, "c").sort_order, 0);
    assert_eq!(task(&db, "a").sort_order, 2);
    assert_eq!(task(&db, "b").sort_order, 3);
    assert_eq!(task(&db, "d").sort_order, 0);
    // a task named twice keeps the later place
    let twice = vec![text("d"), text("a"), text("d")];
    db.reorder_tasks(&twice).unwrap();
    assert_eq!(task(&db, "d").sort_order, 2);
    assert_eq!(task(&db, "a").sort_order, 1);
    assert_eq!(task(&db, "b").sort_order, 3);
    db.reorder_tasks(&[]).unwrap();
    assert_eq!(task(&db, "b").sort_order, 3);
}

#[test]
fn deleting_a_task_takes_its_subtasks_but_not_its_sessions() {
    let mut db = store_with(&["a", "b"]);
    db.add_subtask_at("a", "a1", text("s1"), 1).unwrap();
    db.add_subtask_at("b", "b1", text("s2"), 2).unwrap();
    db.add_subtask_at("a", "a2", text("s3"), 3).unwrap();
    db.start_focus_session_at(text("a"), text("f1"), 4).unwrap();
    db.start_focus_session_at(text("b"), text("f2"), 5).unwrap();
    assert_eq!(db.delete_task("a"), Ok(()));
    let tasks: Vec<&str> = db.tasks().iter().map(|t| t.id.as_str()).collect();
    assert_eq!(tasks, vec!["b"]);
    let subtasks: Vec<&str> = db.subtasks().iter().map(|t| t.id.as_str()).collect();
    assert_eq!(subtasks, vec!["s2"]);
    let sessions: Vec<&str> = db.sessions().iter().map(|t| t.id.as_str()).collect();
    assert_eq!(sessions, vec!["f1", "f2"]);
}

#[test]
fn settings_default_until_saved() {
    let mut db = AppDatabase::new();
    assert_eq!(db.get_settings(), Ok(AppSettings::default()));
    let mut settings = AppSettings::default();
    settings.pomodoro_length = 50;
    settings.sound_enabled = false;
    assert_eq!(db.save_settings_at(settings, 42), Ok(()));
    assert_eq!(db.get_settings(), Ok(settings));
    assert_eq!(db.stored_settings().unwrap().updated_at, 42);
    settings.pomodoro_length = 51;
    assert_eq!(db.save_settings(settings), Ok(()));
    assert_eq!(db.get_settings().unwrap().pomodoro_length, 51);
    assert!(db.stored_settings().unwrap().updated_at > 1_600_000_000_000);
}
