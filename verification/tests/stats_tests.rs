use chrono::NaiveDate;
use focusflow::calendar::{CalendarDay, LocalMoment, CALENDAR_REACH_MS};
use focusflow::database::series::{completion_series_of, label_series, DayCount};
use focusflow::database::stats::{days_of_moments, local_moments, DayWindow, DAY_MILLIS};
use focusflow::database::AppDatabase;
use focusflow::error::DbError;
use focusflow::models::{FocusSession, NewTask, Priority, Status, Task};

fn cal(y: i32, m: u32, d: u32) -> CalendarDay {
    CalendarDay::from_epoch_days(NaiveDate::from_ymd_opt(y, m, d).unwrap().to_epoch_days())
}

fn item(deadline: Option<i64>) -> NewTask {
    NewTask {
        id: String::new(),
        project_id: None,
        title: "t".to_string(),
        description: None,
        priority: Priority::Normal,
        status: Status::Todo,
        created_at: 0,
        deadline,
        estimated_minutes: None,
        actual_minutes: None,
        tags: Vec::new(),
        remind_at: None,
        repeat_mode: None,
        repeat_days_mask: None,
    }
}

// Friday 2024-01-05; the week began on Monday 2024-01-01. A day is 100 apart here.
fn window() -> DayWindow {
    DayWindow { today: cal(2024, 1, 5), start_of_day: 1_000_000_000, start_of_week: 1_000_000_000 - 4 * DAY_MILLIS }
}

fn busy() -> AppDatabase {
    let w = window();
    let mut db = AppDatabase::new();
    let mut add = |id: &str, deadline: Option<i64>, done_at: Option<i64>| {
        db.add_task_at(&item(deadline), id.to_string(), 0).unwrap();
        if let Some(at) = done_at {
            db.set_status_at(id, Status::Done, at, None).unwrap();
        }
    };
    add("done-today", None, Some(w.start_of_day));
    add("done-today-late", Some(w.start_of_day + 5), Some(w.start_of_day + DAY_MILLIS));
    add("done-yesterday", None, Some(w.start_of_day - 1));
    add("done-monday", None, Some(w.start_of_week));
    add("done-last-week", None, Some(w.start_of_week - 1));
    add("due-today", Some(w.start_of_day), None);
    add("due-today-end", Some(w.start_of_day + DAY_MILLIS - 1), None);
    add("due-tomorrow", Some(w.start_of_day + DAY_MILLIS), None);
    add("due-monday", Some(w.start_of_week), None);
    add("due-sunday", Some(w.start_of_week + 7 * DAY_MILLIS - 1), None);
    add("due-next-week", Some(w.start_of_week + 7 * DAY_MILLIS), None);
    add("due-last-week", Some(w.start_of_week - 1), None);
    add("no-deadline", None, None);
    for (id, minutes, completed) in [("f1", 25, true), ("f2", 50, true), ("f3", 1000, false), ("f4", -5, true)] {
        db.start_focus_session_at("no-deadline".to_string(), id.to_string(), 0).unwrap();
        db.finish_focus_session_at(id.to_string(), minutes, completed, 1).unwrap();
    }
    db.start_focus_session_at("no-deadline".to_string(), "open".to_string(), 0).unwrap();
    db
}

#[test]
fn stats_count_by_day_and_week() {
    let db = busy();
    let days = vec![cal(2024, 1, 1), cal(2024, 1, 2), cal(2024, 1, 3), cal(2024, 1, 5), cal(2024, 1, 5)];
    let stats = db.stats_at(window(), &days).unwrap();
    assert_eq!(stats.total_tasks, 13);
    assert_eq!(stats.completed_tasks, 5);
    assert_eq!(stats.completed_today, 2);
    assert_eq!(stats.completed_week, 4);
    assert_eq!(stats.tasks_today, 2);
    assert_eq!(stats.tasks_week, 5);
    assert_eq!(stats.total_focus_time, 70);
    assert_eq!(stats.best_streak, 3);
    assert_eq!(stats.current_streak, 1);
    assert_eq!(stats.level, 1);
    assert_eq!(stats.points, 100);
}

#[test]
fn level_rises_every_ten_completions() {
    let mut db = AppDatabase::new();
    for i in 0..29 {
        let id = format!("t{}", i);
        db.add_task_at(&item(None), id.clone(), 0).unwrap();
        db.set_status_at(&id, Status::Done, 1, None).unwrap();
        let stats = db.stats_at(window(), &Vec::new()).unwrap();
        assert_eq!(stats.completed_tasks, i + 1);
        assert_eq!(stats.level as i32, (i + 1) / 10 + 1);
        assert_eq!(stats.points, (i + 1) * 20);
    }
    let stats = db.stats_at(window(), &Vec::new()).unwrap();
    assert_eq!((stats.level, stats.points, stats.best_streak, stats.current_streak), (3, 580, 0, 0));
}

#[test]
fn stats_of_an_empty_store_are_zero() {
    let db = AppDatabase::new();
    let stats = db.stats_at(window(), &Vec::new()).unwrap();
    assert_eq!(stats.total_tasks, 0);
    assert_eq!(stats.completed_tasks, 0);
    assert_eq!(stats.total_focus_time, 0);
    assert_eq!(stats.level, 1);
    assert_eq!(stats.points, 0);
    let now = db.get_stats().unwrap();
    assert_eq!(now, stats);
}

#[test]
fn focus_time_that_does_not_fit_is_refused() {
    let sessions = |minutes: &[i32]| -> Vec<FocusSession> {
        minutes
            .iter()
            .enumerate()
            .map(|(i, m)| FocusSession {
                id: format!("f{}", i),
                task_id: "gone".to_string(),
                duration_minutes: *m,
                completed: true,
                started_at: 0,
                ended_at: Some(1),
            })
            .collect()
    };
    let store = |minutes: &[i32]| AppDatabase::restore(Vec::new(), Vec::new(), Vec::new(), sessions(minutes), None).unwrap();
    assert_eq!(store(&[-1]).stats_at(window(), &Vec::new()), Err(DbError::OutOfRange));
    assert_eq!(store(&[i32::MAX, i32::MAX, 2]).stats_at(window(), &Vec::new()), Err(DbError::OutOfRange));
    assert_eq!(store(&[i32::MAX, i32::MAX, 1]).stats_at(window(), &Vec::new()).unwrap().total_focus_time, u32::MAX);
    assert_eq!(store(&[5, -5]).stats_at(window(), &Vec::new()).unwrap().total_focus_time, 0);
    assert_eq!(store(&[-1]).get_stats(), Err(DbError::OutOfRange));
}

#[test]
fn windows_at_the_end_of_time_do_not_overflow() {
    let mut db = AppDatabase::new();
    db.add_task_at(&item(Some(i64::MAX)), "last".to_string(), 0).unwrap();
    db.add_task_at(&item(Some(i64::MIN)), "first".to_string(), 0).unwrap();
    let late = DayWindow { today: cal(2024, 1, 5), start_of_day: i64::MAX, start_of_week: i64::MAX - 5 };
    let stats = db.stats_at(late, &Vec::new()).unwrap();
    assert_eq!((stats.tasks_today, stats.tasks_week), (1, 1));
    let early = DayWindow { today: cal(2024, 1, 5), start_of_day: i64::MIN, start_of_week: i64::MIN };
    let stats = db.stats_at(early, &Vec::new()).unwrap();
    assert_eq!((stats.tasks_today, stats.tasks_week), (1, 1));
}

#[test]
fn stats_now_see_what_was_just_completed() {
    let mut db = AppDatabase::new();
    db.add_task(&item(None)).unwrap();
    let t: Task = db.add_task(&item(None)).unwrap();
    db.update_task_status(&t.id, Status::Done).unwrap();
    let stats = db.get_stats().unwrap();
    assert_eq!(stats.total_tasks, 2);
    assert_eq!(stats.completed_tasks, 1);
    assert_eq!(stats.completed_today, 1);
    assert_eq!(stats.completed_week, 1);
    assert_eq!(stats.current_streak, 1);
    assert_eq!(stats.best_streak, 1);
    assert_eq!(stats.points, 20);
    assert_eq!(db.completion_days().len(), 1);
    let series = db.get_completion_series(7).unwrap();
    assert_eq!(series, vec![(chrono::Local::now().format("%Y-%m-%d").to_string(), 1)]);
}

#[test]
fn completion_series_counts_the_latest_days() {
    let days = vec![cal(2024, 1, 3), cal(2024, 1, 1), cal(2024, 1, 3), cal(2024, 1, 5), cal(2024, 1, 3), cal(2024, 1, 1)];
    let all = completion_series_of(&days, 10).unwrap();
    assert_eq!(
        all,
        vec![
            DayCount { day: cal(2024, 1, 5), count: 1 },
            DayCount { day: cal(2024, 1, 3), count: 3 },
            DayCount { day: cal(2024, 1, 1), count: 2 },
        ]
    );
    assert_eq!(completion_series_of(&days, 3).unwrap(), all);
    assert_eq!(completion_series_of(&days, 2).unwrap(), all[..2].to_vec());
    assert!(completion_series_of(&days, 0).unwrap().is_empty());
    assert_eq!(completion_series_of(&days, -1).unwrap(), all);
    assert!(completion_series_of(&Vec::new(), 5).unwrap().is_empty());
}

#[test]
fn series_days_are_written_as_dates() {
    let series = vec![
        DayCount { day: cal(2024, 1, 5), count: 1 },
        DayCount { day: cal(1999, 12, 31), count: 4 },
        DayCount { day: CalendarDay::from_epoch_days(0), count: 2 },
    ];
    assert_eq!(
        label_series(&series),
        Ok(vec![("2024-01-05".to_string(), 1), ("1999-12-31".to_string(), 4), ("1970-01-01".to_string(), 2)])
    );
    let beyond = vec![DayCount { day: CalendarDay::from_epoch_days(i32::MAX), count: 1 }];
    assert_eq!(label_series(&beyond), Err(DbError::OutOfRange));
    assert_eq!(label_series(&Vec::new()), Ok(Vec::new()));
}

#[test]
fn completion_instants_are_those_of_the_done_tasks() {
    let mut db = AppDatabase::new();
    for (id, done_at) in [("a", Some(30)), ("b", None), ("c", Some(10)), ("d", Some(30))] {
        db.add_task_at(&item(None), id.to_string(), 0).unwrap();
        if let Some(at) = done_at {
            db.set_status_at(id, Status::Done, at, None).unwrap();
        }
    }
    db.set_status_at("d", Status::Doing, 40, None).unwrap();
    assert_eq!(db.completion_instants(), vec![30, 10]);
    assert!(AppDatabase::new().completion_instants().is_empty());
    assert!(AppDatabase::new().completion_days().is_empty());
}

#[test]
fn completion_days_are_the_local_days_of_completion() {
    use_local_days(&[1_704_456_000_000, 0, 1_704_456_000_000, -86_400_000 * 400]);
    use_local_days(&[CALENDAR_REACH_MS, -CALENDAR_REACH_MS, CALENDAR_REACH_MS - 1]);
}

fn use_local_days(instants: &[i64]) {
    let mut db = AppDatabase::new();
    db.add_task_at(&item(None), "open".to_string(), 0).unwrap();
    for (i, at) in instants.iter().enumerate() {
        let id = format!("t{}", i);
        db.add_task_at(&item(None), id.clone(), 0).unwrap();
        db.set_status_at(&id, Status::Done, *at, None).unwrap();
    }
    let expected: Vec<CalendarDay> = instants
        .iter()
        .map(|at| {
            let local = chrono::TimeZone::timestamp_millis_opt(&chrono::Local, *at).unwrap();
            let date = local.naive_utc().checked_add_offset(*local.offset()).unwrap().date();
            CalendarDay::from_epoch_days(date.to_epoch_days())
        })
        .collect();
    assert_eq!(db.completion_days(), expected);
}

#[test]
fn instants_beyond_the_calendar_show_no_day() {
    let mut db = AppDatabase::new();
    for (id, at) in [("far", i64::MAX), ("near", 86_400_000 * 3 + 43_200_000), ("early", i64::MIN)] {
        db.add_task_at(&item(None), id.to_string(), 0).unwrap();
        db.set_status_at(id, Status::Done, at, None).unwrap();
    }
    assert_eq!(db.completion_instants(), vec![i64::MAX, 86_400_000 * 3 + 43_200_000, i64::MIN]);
    let days = db.completion_days();
    assert_eq!(days.len(), 1);
    assert!((2..=4).contains(&days[0].to_epoch_days()));
}

#[test]
fn moments_show_their_days_in_order() {
    let at = |days: i32, hour: u32| Some(LocalMoment { day: CalendarDay::from_epoch_days(days), hour, minute: 0 });
    let moments = vec![at(5, 1), None, at(3, 23), at(5, 0), None];
    assert_eq!(
        days_of_moments(&moments),
        vec![CalendarDay::from_epoch_days(5), CalendarDay::from_epoch_days(3), CalendarDay::from_epoch_days(5)]
    );
    assert!(days_of_moments(&vec![None, None]).is_empty());
    assert!(days_of_moments(&Vec::new()).is_empty());
}

#[test]
fn the_time_zone_answers_within_reach_of_the_calendar() {
    let instants = vec![0, CALENDAR_REACH_MS, -CALENDAR_REACH_MS, 1_704_456_000_000, i64::MAX, i64::MIN];
    let moments = local_moments(&instants);
    assert_eq!(moments.len(), 6);
    assert!(moments[..4].iter().all(|m| m.is_some()));
    assert!(moments[4].is_none() && moments[5].is_none());
    for m in moments.iter().flatten() {
        assert!(m.hour < 24 && m.minute < 60);
    }
    assert_eq!(CALENDAR_REACH_MS, 8_000_000_000_000_000);
}
