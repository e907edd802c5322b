use focusflow::database::transfer::BUNDLE_VERSION;
use focusflow::database::{AppDatabase, StoredSettings};
use focusflow::error::DbError;
use focusflow::models::{AppSettings, FocusSession, Priority, Project, Status, Subtask, Task};
use focusflow::rows::{decode_tags, encode_tags, minutes_of, ProjectRow, SettingsRow, SubtaskRow, TaskRow};

fn project(id: &str, name: &str, created_at: i64) -> Project {
    Project { id: id.to_string(), name: name.to_string(), color: "c".to_string(), priority: Priority::Normal, created_at }
}

fn record(id: &str, title: &str, project_id: Option<&str>) -> Task {
    Task {
        id: id.to_string(),
        project_id: project_id.map(|p| p.to_string()),
        title: title.to_string(),
        description: None,
        priority: Priority::Normal,
        status: Status::Todo,
        created_at: 7,
        completed_at: None,
        deadline: None,
        estimated_minutes: None,
        actual_minutes: None,
        tags: Vec::new(),
        remind_at: None,
        reminded_at: None,
        repeat_mode: None,
        repeat_days_mask: None,
        is_archived: true,
        sort_order: 9,
    }
}

fn observable(db: &AppDatabase) -> (Vec<Project>, Vec<Task>, Vec<Subtask>, Vec<FocusSession>, Option<AppSettings>) {
    (db.projects().clone(), db.tasks().clone(), db.subtasks().clone(), db.sessions().clone(), db.stored_settings().map(|s| s.values))
}

fn seeded() -> AppDatabase {
    let mut db = AppDatabase::new();
    db.add_project_at("p1".to_string(), "Old".to_string(), "old".to_string(), Priority::Low, 1).unwrap();
    let mut kept = record("t1", "kept", Some("p1"));
    kept.is_archived = false;
    kept.sort_order = 0;
    kept.remind_at = Some(1);
    db.import_data_at(Vec::new(), vec![kept], AppSettings::default(), 2).unwrap();
    db.archive_task("t1").unwrap();
    db.reorder_tasks(&["x".to_string(), "t1".to_string()]).unwrap();
    db.mark_reminded(&["t1".to_string()], 3).unwrap();
    assert_eq!(db.tasks()[0].reminded_at, Some(3));
    db
}

fn bundle() -> (Vec<Project>, Vec<Task>, AppSettings) {
    let mut settings = AppSettings::default();
    settings.pomodoro_length = 45;
    let mut first = record("t1", "first version", Some("p2"));
    first.remind_at = Some(500);
    let mut second = record("t1", "second version", Some("p1"));
    second.remind_at = Some(600);
    (
        vec![project("p1", "New", 100), project("p2", "Two", 101), project("p2", "Two again", 102)],
        vec![first, record("t2", "added", Some("p2")), second],
        settings,
    )
}

#[test]
fn import_overwrites_and_adds() {
    let mut db = seeded();
    let (ps, ts, settings) = bundle();
    assert_eq!(db.import_data_at(ps, ts, settings, 1000), Ok(()));
    let projects = db.projects();
    assert_eq!(projects.len(), 2);
    assert_eq!((projects[0].id.as_str(), projects[0].name.as_str(), projects[0].created_at), ("p1", "New", 1));
    assert_eq!(projects[0].priority, Priority::Normal);
    assert_eq!((projects[1].id.as_str(), projects[1].name.as_str(), projects[1].created_at), ("p2", "Two again", 101));
    let tasks = db.tasks();
    assert_eq!(tasks.len(), 2);
    let t1 = &tasks[0];
    assert_eq!((t1.id.as_str(), t1.title.as_str(), t1.project_id.as_deref()), ("t1", "second version", Some("p1")));
    assert_eq!((t1.created_at, t1.is_archived, t1.sort_order), (7, true, 1));
    assert_eq!((t1.remind_at, t1.reminded_at), (Some(600), None));
    let t2 = &tasks[1];
    assert_eq!((t2.id.as_str(), t2.title.as_str(), t2.created_at), ("t2", "added", 7));
    assert_eq!((t2.is_archived, t2.sort_order), (false, 0));
    assert_eq!(db.stored_settings(), Some(StoredSettings { values: settings, updated_at: 1000 }));
}

#[test]
fn import_is_upsert_idempotent() {
    let mut db = seeded();
    let (ps, ts, settings) = bundle();
    db.import_data_at(ps.clone(), ts.clone(), settings, 1000).unwrap();
    let once = observable(&db);
    db.import_data_at(ps.clone(), ts.clone(), settings, 1000).unwrap();
    assert_eq!(observable(&db), once);
    assert_eq!(db.stored_settings().unwrap().updated_at, 1000);
    db.import_data_at(ps.clone(), ts.clone(), settings, 2000).unwrap();
    assert_eq!(observable(&db), once);
    assert_eq!(db.stored_settings().unwrap().updated_at, 2000);
    db.import_data(ps, ts, settings).unwrap();
    assert_eq!(observable(&db), once);
    assert!(db.stored_settings().unwrap().updated_at > 1_600_000_000_000);
}

#[test]
fn import_is_all_or_nothing() {
    let mut db = seeded();
    let before = observable(&db);
    let (ps, mut ts, settings) = bundle();
    ts.push(record("t3", "lost", Some("nowhere")));
    assert_eq!(db.import_data_at(ps.clone(), ts, settings, 1000), Err(DbError::UnknownProject));
    assert_eq!(observable(&db), before);
    let (_, mut ts, _) = bundle();
    let mut broken = record("t4", "both", None);
    broken.remind_at = Some(1);
    broken.reminded_at = Some(2);
    ts.push(broken);
    ts.push(record("t3", "lost", Some("nowhere")));
    assert_eq!(db.import_data_at(ps.clone(), ts, settings, 1000), Err(DbError::InvalidRecord));
    let mut undone = record("t5", "done without a time", None);
    undone.status = Status::Done;
    assert_eq!(db.import_data(ps.clone(), vec![undone], settings), Err(DbError::InvalidRecord));
    let mut timed = record("t6", "a time without done", None);
    timed.completed_at = Some(5);
    assert_eq!(db.import_data_at(ps, vec![timed], settings, 1), Err(DbError::InvalidRecord));
    assert_eq!(observable(&db), before);
    assert_eq!(db.stored_settings().unwrap().updated_at, 2);
}

#[test]
fn import_into_an_empty_store() {
    let mut db = AppDatabase::new();
    let (ps, ts, settings) = bundle();
    db.import_data_at(ps, ts, settings, 5).unwrap();
    let names: Vec<&str> = db.projects().iter().map(|p| p.name.as_str()).collect();
    assert_eq!(names, vec!["New", "Two again"]);
    assert_eq!(db.projects()[0].created_at, 100);
    let titles: Vec<&str> = db.tasks().iter().map(|t| t.title.as_str()).collect();
    assert_eq!(titles, vec!["second version", "added"]);
    assert!(db.tasks().iter().all(|t| !t.is_archived && t.sort_order == 0));
    assert_eq!(db.get_settings().unwrap().pomodoro_length, 45);
}

#[test]
fn restore_takes_tables_that_keep_the_rules() {
    let db = seeded();
    let (p, t, s, f, _) = observable(&db);
    let back = AppDatabase::restore(p.clone(), t.clone(), s.clone(), f.clone(), db.stored_settings()).unwrap();
    assert_eq!(observable(&back), observable(&db));
    assert_eq!(back.stored_settings(), db.stored_settings());
    let sub = Subtask { id: "s".to_string(), task_id: "t1".to_string(), title: "x".to_string(), completed: true, sort_order: 3, created_at: 4 };
    let session = FocusSession { id: "f".to_string(), task_id: "gone".to_string(), duration_minutes: 5, completed: true, started_at: 1, ended_at: Some(2) };
    let back = AppDatabase::restore(p, t, vec![sub.clone()], vec![session.clone()], None).unwrap();
    assert_eq!(back.subtasks(), &vec![sub]);
    assert_eq!(back.sessions(), &vec![session]);
    assert_eq!(back.stored_settings(), None);
}

#[test]
fn restore_refuses_tables_that_break_the_rules() {
    let p = || vec![project("p1", "A", 1)];
    let t = || vec![record("t1", "a", Some("p1"))];
    let sub = |id: &str, task: &str| Subtask { id: id.to_string(), task_id: task.to_string(), title: "x".to_string(), completed: false, sort_order: 0, created_at: 0 };
    let session = |id: &str| FocusSession { id: id.to_string(), task_id: "t1".to_string(), duration_minutes: 0, completed: false, started_at: 0, ended_at: None };
    let refused = |r: Result<AppDatabase, DbError>| r.err();
    assert_eq!(refused(AppDatabase::restore(vec![project("p1", "A", 1), project("p1", "B", 2)], t(), Vec::new(), Vec::new(), None)), Some(DbError::DuplicateId));
    assert_eq!(refused(AppDatabase::restore(p(), vec![record("t1", "a", None), record("t1", "b", None)], Vec::new(), Vec::new(), None)), Some(DbError::DuplicateId));
    assert_eq!(refused(AppDatabase::restore(p(), t(), vec![sub("s", "t1"), sub("s", "t1")], Vec::new(), None)), Some(DbError::DuplicateId));
    assert_eq!(refused(AppDatabase::restore(p(), t(), Vec::new(), vec![session("f"), session("f")], None)), Some(DbError::DuplicateId));
    let mut both = record("t2", "b", Some("nowhere"));
    both.remind_at = Some(1);
    both.reminded_at = Some(1);
    assert_eq!(refused(AppDatabase::restore(p(), vec![record("t1", "a", None), both], vec![sub("s", "zz")], Vec::new(), None)), Some(DbError::InvalidRecord));
    assert_eq!(refused(AppDatabase::restore(p(), vec![record("t1", "a", Some("nowhere"))], vec![sub("s", "zz")], Vec::new(), None)), Some(DbError::UnknownProject));
    assert_eq!(refused(AppDatabase::restore(p(), t(), vec![sub("s", "zz")], Vec::new(), None)), Some(DbError::UnknownTask));
    assert_eq!(refused(AppDatabase::restore(p(), t(), vec![sub("s", "t1")], vec![session("f")], None)), None);
}

#[test]
fn tags_are_stored_as_json() {
    assert_eq!(encode_tags(&vec!["a".to_string(), "b c".to_string()]), "[\"a\",\"b c\"]");
    assert_eq!(encode_tags(&Vec::new()), "[]");
    assert_eq!(encode_tags(&vec!["q\"uote".to_string()]), "[\"q\\\"uote\"]");
    assert_eq!(decode_tags("[\"a\",\"b c\"]"), vec!["a", "b c"]);
    assert_eq!(decode_tags(" [ \"x\" ] "), vec!["x"]);
    assert_eq!(decode_tags("[]"), Vec::<String>::new());
    for tags in [vec![], vec!["one".to_string()], vec!["tab\t".to_string(), "é".to_string(), String::new()]] {
        assert_eq!(decode_tags(&encode_tags(&tags)), tags);
    }
}

#[test]
fn corrupt_tags_read_as_none() {
    for text in ["", "not json", "[1,2]", "{\"a\":1}", "[\"open", "\"a\"", "null", "[\"a\"] trailing"] {
        assert_eq!(decode_tags(text), Vec::<String>::new());
    }
}

#[test]
fn task_rows_decode_with_fallbacks() {
    let row = TaskRow {
        id: "t".to_string(),
        project_id: Some("p".to_string()),
        title: "T".to_string(),
        description: None,
        priority: 9,
        status: -1,
        created_at: 1,
        completed_at: None,
        deadline: Some(2),
        estimated_minutes: Some(4_294_967_296 + 25),
        actual_minutes: Some(-1),
        tags: "oops".to_string(),
        remind_at: Some(3),
        reminded_at: None,
        repeat_mode: Some("daily".to_string()),
        repeat_days_mask: Some(4),
        is_archived: 2,
        sort_order: 5,
    };
    let t = Task::from_row(row);
    assert_eq!(t.priority, Priority::Normal);
    assert_eq!(t.status, Status::Todo);
    assert_eq!(t.estimated_minutes, Some(25));
    assert_eq!(t.actual_minutes, Some(u32::MAX));
    assert!(t.tags.is_empty());
    assert!(t.is_archived);
    assert_eq!((t.id.as_str(), t.project_id.as_deref(), t.deadline, t.remind_at, t.sort_order), ("t", Some("p"), Some(2), Some(3), 5));
    assert_eq!(minutes_of(-1), u32::MAX);
    assert_eq!(minutes_of(4_294_967_296), 0);
    assert_eq!(minutes_of(30), 30);
}

#[test]
fn rows_round_trip() {
    let mut t = record("t1", "title", Some("p"));
    t.tags = vec!["a".to_string(), "b".to_string()];
    t.priority = Priority::High;
    t.status = Status::Done;
    t.completed_at = Some(8);
    t.estimated_minutes = Some(u32::MAX);
    let row = t.to_row();
    assert_eq!((row.priority, row.status, row.is_archived, row.tags.as_str()), (2, 2, 1, "[\"a\",\"b\"]"));
    assert_eq!(row.estimated_minutes, Some(4_294_967_295));
    assert_eq!(Task::from_row(row), t);
    let p = project("p", "P", 3);
    assert_eq!(p.to_row(), ProjectRow { id: "p".to_string(), name: "P".to_string(), color: "c".to_string(), priority: 1, created_at: 3 });
    assert_eq!(Project::from_row(p.to_row()), p);
    assert_eq!(Project::from_row(ProjectRow { id: "p".to_string(), name: "P".to_string(), color: "c".to_string(), priority: 77, created_at: 3 }).priority, Priority::Normal);
    let s = Subtask { id: "s".to_string(), task_id: "t".to_string(), title: "x".to_string(), completed: true, sort_order: 2, created_at: 1 };
    assert_eq!(s.to_row(), SubtaskRow { id: "s".to_string(), task_id: "t".to_string(), title: "x".to_string(), completed: 1, sort_order: 2, created_at: 1 });
    assert_eq!(Subtask::from_row(s.to_row()), s);
    let settings = AppSettings::default();
    assert_eq!(AppSettings::from_row(Some(settings.to_row())), settings);
    assert_eq!(AppSettings::from_row(None), settings);
    let odd = SettingsRow { pomodoro_length: -1, sound_enabled: 5, close_to_tray: 0, ..settings.to_row() };
    let read = AppSettings::from_row(Some(odd));
    assert_eq!((read.pomodoro_length, read.sound_enabled, read.close_to_tray), (u32::MAX, true, false));
}

#[test]
fn export_lists_what_the_store_holds() {
    let mut db = seeded();
    let (ps, ts, settings) = bundle();
    db.import_data_at(ps, ts, settings, 1000).unwrap();
    db.update_project_priority("p2", Priority::High).unwrap();
    let out = db.export_data_at(4242);
    assert_eq!(out.version, BUNDLE_VERSION);
    assert_eq!(out.version, 1);
    assert_eq!(out.exported_at, 4242);
    assert_eq!(out.projects, db.get_projects().unwrap());
    assert_eq!(out.projects[0].id, "p2");
    assert_eq!(out.tasks, db.get_tasks(None, None, None).unwrap());
    assert_eq!(out.settings, settings);
    assert_eq!(AppDatabase::new().export_data_at(1).settings, AppSettings::default());
    assert!(AppDatabase::new().export_data().exported_at > 1_600_000_000_000);
}

#[test]
fn a_store_takes_its_own_export_without_change() {
    let mut db = seeded();
    let (ps, ts, settings) = bundle();
    db.import_data_at(ps, ts, settings, 1000).unwrap();
    db.update_project_priority("p2", Priority::High).unwrap();
    db.reorder_tasks(&["t2".to_string(), "t1".to_string()]).unwrap();
    let before = observable(&db);
    let out = db.export_data_at(5);
    assert_eq!(db.import_data_at(out.projects, out.tasks, out.settings, 6), Ok(()));
    assert_eq!(observable(&db), before);
    assert_eq!(db.stored_settings().unwrap().updated_at, 6);
}
