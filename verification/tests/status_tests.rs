use chrono::{Duration, Local, NaiveDate, TimeZone};
use focusflow::calendar::{CalendarDay, LocalMoment};
use focusflow::database::status::{count_from, Successor};
use focusflow::database::AppDatabase;
use focusflow::error::DbError;
use focusflow::models::{NewTask, Priority, Status, Task};

fn line(v: &str) -> String {
    v.to_string()
}

fn repeating(mode: Option<&str>, mask: Option<i64>, deadline: Option<i64>) -> NewTask {
    NewTask {
        id: String::new(),
        project_id: Some(line("P")),
        title: line("Water the plants"),
        description: Some(line("all of them")),
        priority: Priority::High,
        status: Status::Todo,
        created_at: 0,
        deadline,
        estimated_minutes: Some(15),
        actual_minutes: Some(3),
        tags: vec![line("home"), line("green")],
        remind_at: None,
        repeat_mode: mode.map(line),
        repeat_days_mask: mask,
    }
}

fn garden(mode: Option<&str>, mask: Option<i64>, deadline: Option<i64>) -> AppDatabase {
    let mut db = AppDatabase::new();
    db.add_project_at(line("P"), line("P"), line("c"), Priority::Normal, 0).unwrap();
    db.add_task_at(&repeating(None, None, None), line("other"), 1).unwrap();
    db.add_task_at(&repeating(mode, mask, deadline), line("t"), 2).unwrap();
    db
}

fn local_ms(y: i32, m: u32, d: u32, h: u32, min: u32) -> i64 {
    Local.with_ymd_and_hms(y, m, d, h, min, 0).earliest().unwrap().timestamp_millis()
}

fn the<'a>(db: &'a AppDatabase, id: &str) -> &'a Task {
    db.tasks().iter().find(|t| t.id == id).unwrap()
}

#[test]
fn status_changes_keep_completed_at_in_step() {
    let mut db = garden(None, None, Some(5_000_000));
    assert!(the(&db, "t").remind_at.is_some());
    assert_eq!(db.set_status_at("t", Status::Doing, 10, None), Ok(()));
    let t = the(&db, "t");
    assert_eq!((t.status, t.completed_at), (Status::Doing, None));
    assert!(t.remind_at.is_some());
    assert_eq!(db.set_status_at("t", Status::Done, 20, None), Ok(()));
    let t = the(&db, "t");
    assert_eq!((t.status, t.completed_at, t.remind_at), (Status::Done, Some(20), None));
    assert_eq!(db.set_status_at("t", Status::Done, 30, None), Ok(()));
    assert_eq!(the(&db, "t").completed_at, Some(30));
    assert_eq!(db.set_status_at("t", Status::Todo, 40, None), Ok(()));
    let t = the(&db, "t");
    assert_eq!((t.status, t.completed_at), (Status::Todo, None));
    assert_eq!(db.tasks().len(), 2);
}

#[test]
fn completing_a_daily_task_spawns_one_successor() {
    let deadline = local_ms(2024, 3, 10, 14, 30);
    let mut db = garden(Some("daily"), None, Some(deadline));
    let other = the(&db, "other").clone();
    assert_eq!(db.update_task_status("t", Status::Done), Ok(()));
    assert_eq!(db.tasks().len(), 3);
    let done = the(&db, "t");
    assert_eq!(done.status, Status::Done);
    assert!(done.completed_at.unwrap() > 1_600_000_000_000);
    assert_eq!(done.repeat_mode, None);
    assert_eq!(done.repeat_days_mask, None);
    assert_eq!(done.remind_at, None);
    assert_eq!(done.deadline, Some(deadline));
    let heir = &db.tasks()[2];
    assert_eq!(heir.id.len(), 36);
    assert_eq!(heir.deadline, Some(local_ms(2024, 3, 11, 14, 30)));
    assert_eq!(heir.status, Status::Todo);
    assert_eq!(heir.completed_at, None);
    assert_eq!(heir.created_at, done.completed_at.unwrap());
    assert_eq!(heir.project_id.as_deref(), Some("P"));
    assert_eq!(heir.title, "Water the plants");
    assert_eq!(heir.description.as_deref(), Some("all of them"));
    assert_eq!(heir.priority, Priority::High);
    assert_eq!(heir.tags, vec!["home", "green"]);
    assert_eq!(heir.repeat_mode.as_deref(), Some("daily"));
    assert_eq!(heir.estimated_minutes, None);
    assert_eq!(heir.remind_at, None);
    assert_eq!(the(&db, "other"), &other);
    // the completed task cannot come back a second time
    assert_eq!(db.update_task_status("t", Status::Todo), Ok(()));
    assert_eq!(db.update_task_status("t", Status::Done), Ok(()));
    assert_eq!(db.tasks().len(), 3);
}

#[test]
fn completing_a_weekday_task_on_friday_skips_the_weekend() {
    let deadline = local_ms(2023, 10, 6, 8, 15);
    let mut db = garden(Some("weekdays"), None, Some(deadline));
    db.update_task_status("t", Status::Done).unwrap();
    assert_eq!(db.tasks()[2].deadline, Some(local_ms(2023, 10, 9, 8, 15)));
    assert_eq!(db.tasks()[2].repeat_mode.as_deref(), Some("weekdays"));
}

#[test]
fn completing_a_custom_task_follows_its_pattern() {
    let deadline = local_ms(2023, 10, 9, 23, 59);
    let mut db = garden(Some("custom"), Some(4 | 16), Some(deadline));
    db.update_task_status("t", Status::Done).unwrap();
    let heir = db.tasks()[2].clone();
    assert_eq!(heir.deadline, Some(local_ms(2023, 10, 11, 23, 59)));
    assert_eq!(heir.repeat_days_mask, Some(20));
    db.update_task_status(&heir.id, Status::Done).unwrap();
    assert_eq!(db.tasks()[3].deadline, Some(local_ms(2023, 10, 13, 23, 59)));
}

#[test]
fn a_task_without_a_deadline_comes_back_tomorrow_at_nine() {
    let mut db = garden(Some("daily"), None, None);
    let before = Local::now();
    db.update_task_status("t", Status::Done).unwrap();
    let after = Local::now();
    let heir = &db.tasks()[2];
    let early = (before + Duration::days(1)).date_naive().and_hms_opt(9, 0, 0).unwrap();
    let late = (after + Duration::days(1)).date_naive().and_hms_opt(9, 0, 0).unwrap();
    let early = Local.from_local_datetime(&early).earliest().unwrap().timestamp_millis();
    let late = Local.from_local_datetime(&late).earliest().unwrap().timestamp_millis();
    assert!(heir.deadline == Some(early) || heir.deadline == Some(late));
}

#[test]
fn tasks_that_cannot_come_back_are_just_completed() {
    for (mode, mask) in [(None, Some(127)), (Some("monthly"), Some(127)), (Some("custom"), None), (Some("custom"), Some(0)), (Some("custom"), Some(128)), (Some("custom"), Some(-5))] {
        let mut db = garden(mode, mask, Some(local_ms(2024, 3, 10, 14, 30)));
        assert_eq!(db.update_task_status("t", Status::Done), Ok(()));
        assert_eq!(db.tasks().len(), 2);
        let t = the(&db, "t");
        assert_eq!(t.status, Status::Done);
        assert_eq!(t.repeat_mode.as_deref(), mode);
        assert_eq!(t.repeat_days_mask, mask);
    }
}

#[test]
fn only_completion_spawns() {
    let mut db = garden(Some("daily"), None, Some(local_ms(2024, 3, 10, 14, 30)));
    assert_eq!(db.update_task_status("t", Status::Doing), Ok(()));
    assert_eq!(db.update_task_status("t", Status::Todo), Ok(()));
    assert_eq!(db.tasks().len(), 2);
    assert_eq!(the(&db, "t").repeat_mode.as_deref(), Some("daily"));
    assert_eq!(db.update_task_status("nobody", Status::Done), Err(DbError::NotFound));
    assert_eq!(db.update_task_status("nobody", Status::Todo), Err(DbError::NotFound));
}

#[test]
fn set_status_at_takes_the_successor_it_is_handed() {
    let mut db = garden(Some("daily"), None, Some(100));
    let next = Successor { id: line("heir"), deadline: 86_400_100 };
    assert_eq!(db.set_status_at("t", Status::Done, 555, Some(next)), Ok(()));
    assert_eq!(db.tasks().len(), 3);
    let heir = the(&db, "heir");
    assert_eq!((heir.deadline, heir.created_at, heir.status), (Some(86_400_100), 555, Status::Todo));
    assert!(!heir.is_archived);
    assert_eq!(heir.sort_order, 0);
    let done = the(&db, "t");
    assert_eq!((done.status, done.completed_at, done.repeat_mode.clone()), (Status::Done, Some(555), None));
}

#[test]
fn set_status_at_ignores_a_successor_that_is_not_called_for() {
    let mut db = garden(Some("daily"), None, Some(100));
    let next = Successor { id: line("heir"), deadline: 1 };
    assert_eq!(db.set_status_at("t", Status::Doing, 555, Some(next)), Ok(()));
    assert_eq!(db.tasks().len(), 2);
    let next = Successor { id: line("other"), deadline: 1 };
    assert_eq!(db.set_status_at("other", Status::Done, 555, Some(next)), Ok(()));
    assert_eq!(db.tasks().len(), 2);
    assert_eq!(the(&db, "other").status, Status::Done);
}

#[test]
fn set_status_at_refuses_a_bad_successor_whole() {
    let mut db = garden(Some("daily"), None, Some(100));
    let before = db.tasks().clone();
    let next = Successor { id: line("other"), deadline: 1 };
    assert_eq!(db.set_status_at("t", Status::Done, 555, Some(next)), Err(DbError::DuplicateId));
    let next = Successor { id: line("t"), deadline: 1 };
    assert_eq!(db.set_status_at("t", Status::Done, 555, Some(next)), Err(DbError::DuplicateId));
    let next = Successor { id: line(""), deadline: 1 };
    assert_eq!(db.set_status_at("t", Status::Done, 555, Some(next)), Err(DbError::EmptyField));
    let next = Successor { id: line("x"), deadline: 1 };
    assert_eq!(db.set_status_at("nobody", Status::Done, 555, Some(next)), Err(DbError::NotFound));
    assert_eq!(db.tasks(), &before);
}

#[test]
fn plan_successor_counts_from_the_day_it_is_given() {
    let db = garden(Some("weekdays"), None, Some(100));
    let fri = CalendarDay::from_epoch_days(19636); // 2023-10-06
    assert_eq!(db.plan_successor("t", Status::Done, fri), Some(CalendarDay::from_epoch_days(19639)));
    assert_eq!(db.plan_successor("t", Status::Doing, fri), None);
    assert_eq!(db.plan_successor("other", Status::Done, fri), None);
    assert_eq!(db.plan_successor("nobody", Status::Done, fri), None);
    assert_eq!(db.comes_back("t", Status::Done), Some(true));
    assert_eq!(db.comes_back("t", Status::Todo), Some(false));
    assert_eq!(db.comes_back("other", Status::Done), Some(false));
    assert_eq!(db.comes_back("nobody", Status::Done), None);
    assert_eq!(db.deadline_of("t"), Some(100));
    assert_eq!(db.deadline_of("other"), None);
    assert_eq!(db.deadline_of("nobody"), None);
}

#[test]
fn a_deadline_beyond_the_calendar_is_counted_from_today() {
    let mut db = garden(Some("daily"), None, Some(i64::MAX));
    assert_eq!(db.update_task_status("t", Status::Done), Ok(()));
    assert_eq!(db.tasks().len(), 3);
    let heir = &db.tasks()[2];
    let tomorrow = (Local::now() + Duration::days(1)).date_naive();
    let got = Local.timestamp_millis_opt(heir.deadline.unwrap()).unwrap();
    assert!((got.date_naive() - tomorrow).num_days().abs() <= 1);
    assert_eq!(got.format("%H:%M").to_string(), "09:00");
}

#[test]
fn a_successor_beyond_the_calendar_is_refused_whole() {
    // noon of the last day that the calendar knows
    let last = NaiveDate::MAX.and_hms_opt(12, 0, 0).unwrap().and_utc().timestamp_millis();
    let lands_on_last_day = match Local.timestamp_millis_opt(last) {
        chrono::LocalResult::Single(dt) => {
            dt.naive_utc().checked_add_offset(*dt.offset()).map(|n| n.date()) == Some(NaiveDate::MAX)
        }
        _ => false,
    };
    let mut db = garden(Some("daily"), None, Some(last));
    let before = db.tasks().clone();
    let r = db.update_task_status("t", Status::Done);
    if lands_on_last_day {
        assert_eq!(r, Err(DbError::NoLocalTime));
        assert_eq!(db.tasks(), &before);
        assert_eq!(DbError::NoLocalTime.message(), "the local time could not be resolved");
    } else {
        assert!(r == Ok(()) || r == Err(DbError::NoLocalTime));
        if r.is_err() {
            assert_eq!(db.tasks(), &before);
        }
    }
}

#[test]
fn days_are_counted_from_the_deadline_or_from_today() {
    let at = |days: i32, hour: u32, minute: u32| LocalMoment { day: CalendarDay::from_epoch_days(days), hour, minute };
    assert_eq!(count_from(Some(at(5, 14, 30)), None), Some(at(5, 14, 30)));
    assert_eq!(count_from(Some(at(5, 14, 30)), Some(at(8, 1, 2))), Some(at(5, 14, 30)));
    assert_eq!(count_from(None, Some(at(8, 1, 2))), Some(at(8, 9, 0)));
    assert_eq!(count_from(None, None), None);
}

#[test]
fn a_successor_is_due_within_two_days_of_a_day_after_the_old_deadline() {
    for deadline in [local_ms(2024, 3, 10, 14, 30), local_ms(2024, 10, 27, 0, 0), 1_700_000_123_456, -5] {
        let mut db = garden(Some("daily"), None, Some(deadline));
        assert_eq!(db.update_task_status("t", Status::Done), Ok(()));
        let next = db.tasks()[2].deadline.unwrap();
        assert!((next - (deadline + 86_400_000)).abs() < 172_860_000);
    }
}
