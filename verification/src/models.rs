//! The entities of the tracker and their mathematical views.
//!
//! Every entity that holds text has a view in which each `String` is a
//! `Seq<char>` and each `Vec` a `Seq`; contracts throughout the crate speak
//! of these views.

use vstd::prelude::*;

verus! {

/// How urgent a project or a task is.
#[derive(Debug, Clone, Copy, PartialEq, Eq, Structural)]
pub enum Priority {
    Low,
    Normal,
    High,
}

impl Priority {
    /// The integer under which a priority is stored: 0, 1 or 2.
    pub open spec fn code(self) -> int {
        match self {
            Priority::Low => 0,
            Priority::Normal => 1,
            Priority::High => 2,
        }
    }

    /// The priority that a stored integer stands for; every integer other
    /// than 0 and 2 stands for `Normal`.
    pub open spec fn of_code(val: int) -> Priority {
        if val == 0 {
            Priority::Low
        } else if val == 2 {
            Priority::High
        } else {
            Priority::Normal
        }
    }

    /// Decodes a stored integer. Unknown values fall back to `Normal`.
    pub fn from_int(val: i32) -> (p: Priority)
        ensures
            p == Priority::of_code(val as int),
    {
        match val {
            0 => Priority::Low,
            1 => Priority::Normal,
            2 => Priority::High,
            _ => Priority::Normal,
        }
    }

    /// Encodes the priority as the integer that is stored for it.
    pub fn to_int(self) -> (val: i32)
        ensures
            val as int == self.code(),
            Priority::of_code(val as int) == self,
    {
        match self {
            Priority::Low => 0,
            Priority::Normal => 1,
            Priority::High => 2,
        }
    }
}

/// Where a task stands in its life.
#[derive(Debug, Clone, Copy, PartialEq, Eq, Structural)]
pub enum Status {
    Todo,
    Doing,
    Done,
}

impl Status {
    /// The integer under which a status is stored: 0, 1 or 2.
    pub open spec fn code(self) -> int {
        match self {
            Status::Todo => 0,
            Status::Doing => 1,
            Status::Done => 2,
        }
    }

    /// The status that a stored integer stands for; every integer other
    /// than 1 and 2 stands for `Todo`.
    pub open spec fn of_code(val: int) -> Status {
        if val == 1 {
            Status::Doing
        } else if val == 2 {
            Status::Done
        } else {
            Status::Todo
        }
    }

    /// Decodes a stored integer. Unknown values fall back to `Todo`.
    pub fn from_int(val: i32) -> (s: Status)
        ensures
            s == Status::of_code(val as int),
    {
        match val {
            0 => Status::Todo,
            1 => Status::Doing,
            2 => Status::Done,
            _ => Status::Todo,
        }
    }

    /// Encodes the status as the integer that is stored for it.
    pub fn to_int(self) -> (val: i32)
        ensures
            val as int == self.code(),
            Status::of_code(val as int) == self,
    {
        match self {
            Status::Todo => 0,
            Status::Doing => 1,
            Status::Done => 2,
        }
    }
}

/// Copies a text.
pub fn copy_text(s: &String) -> (r: String)
    ensures
        r@ == s@,
{
    s.clone()
}

/// Copies a text that may be absent.
pub fn copy_opt_text(s: &Option<String>) -> (r: Option<String>)
    ensures
        r.deep_view() == s.deep_view(),
{
    match s {
        Some(t) => Some(t.clone()),
        None => None,
    }
}

/// Copies a list of texts.
pub fn copy_texts(v: &Vec<String>) -> (r: Vec<String>)
    ensures
        r.deep_view() == v.deep_view(),
{
    let mut out: Vec<String> = Vec::new();
    let mut i: usize = 0;
    while i < v.len()
        invariant
            i <= v.len(),
            out.len() == i,
            forall|j: int| 0 <= j < i ==> out@[j]@ == v@[j]@,
        decreases v.len() - i,
    {
        out.push(v[i].clone());
        i += 1;
    }
    assert(out.deep_view() =~= v.deep_view());
    out
}

/// Whether two texts that may be absent are the same.
pub fn same_opt_text(a: &Option<String>, b: &Option<String>) -> (r: bool)
    ensures
        r == (a.deep_view() == b.deep_view()),
{
    match (a, b) {
        (Some(x), Some(y)) => *x == *y,
        (None, None) => true,
        _ => false,
    }
}

/// A project: a named group of tasks.
#[derive(Debug, PartialEq, Eq)]
pub struct Project {
    pub id: String,
    pub name: String,
    pub color: String,
    pub priority: Priority,
    /// Milliseconds since the Unix epoch.
    pub created_at: i64,
}

/// What a [`Project`] holds.
pub struct ProjectView {
    pub id: Seq<char>,
    pub name: Seq<char>,
    pub color: Seq<char>,
    pub priority: Priority,
    pub created_at: i64,
}

impl View for Project {
    type V = ProjectView;

    open spec fn view(&self) -> ProjectView {
        ProjectView {
            id: self.id@,
            name: self.name@,
            color: self.color@,
            priority: self.priority,
            created_at: self.created_at,
        }
    }
}

impl Clone for Project {
    fn clone(&self) -> (r: Project)
        ensures
            r@ == self@,
    {
        Project {
            id: self.id.clone(),
            name: self.name.clone(),
            color: self.color.clone(),
            priority: self.priority,
            created_at: self.created_at,
        }
    }
}

/// A step of a task, owned by it.
#[derive(Debug, PartialEq, Eq)]
pub struct Subtask {
    pub id: String,
    pub task_id: String,
    pub title: String,
    pub completed: bool,
    pub sort_order: i32,
    pub created_at: i64,
}

/// What a [`Subtask`] holds.
pub struct SubtaskView {
    pub id: Seq<char>,
    pub task_id: Seq<char>,
    pub title: Seq<char>,
    pub completed: bool,
    pub sort_order: i32,
    pub created_at: i64,
}

impl View for Subtask {
    type V = SubtaskView;

    open spec fn view(&self) -> SubtaskView {
        SubtaskView {
            id: self.id@,
            task_id: self.task_id@,
            title: self.title@,
            completed: self.completed,
            sort_order: self.sort_order,
            created_at: self.created_at,
        }
    }
}

impl Clone for Subtask {
    fn clone(&self) -> (r: Subtask)
        ensures
            r@ == self@,
    {
        Subtask {
            id: self.id.clone(),
            task_id: self.task_id.clone(),
            title: self.title.clone(),
            completed: self.completed,
            sort_order: self.sort_order,
            created_at: self.created_at,
        }
    }
}

/// A task as the store holds it.
#[derive(Debug, PartialEq, Eq)]
pub struct Task {
    pub id: String,
    pub project_id: Option<String>,
    pub title: String,
    pub description: Option<String>,
    pub priority: Priority,
    pub status: Status,
    /// Milliseconds since the Unix epoch.
    pub created_at: i64,
    /// Set exactly while the status is `Done`.
    pub completed_at: Option<i64>,
    pub deadline: Option<i64>,
    pub estimated_minutes: Option<u32>,
    pub actual_minutes: Option<u32>,
    pub tags: Vec<String>,
    /// When the reminder is due; cleared once it has fired.
    pub remind_at: Option<i64>,
    /// When the reminder fired; cleared when a new one is scheduled.
    pub reminded_at: Option<i64>,
    /// `"daily"`, `"weekdays"` or `"custom"`.
    pub repeat_mode: Option<String>,
    /// Seven bits, Monday first, read when the mode is `"custom"`.
    pub repeat_days_mask: Option<i64>,
    pub is_archived: bool,
    pub sort_order: i32,
}

/// What a [`Task`] holds.
pub struct TaskView {
    pub id: Seq<char>,
    pub project_id: Option<Seq<char>>,
    pub title: Seq<char>,
    pub description: Option<Seq<char>>,
    pub priority: Priority,
    pub status: Status,
    pub created_at: i64,
    pub completed_at: Option<i64>,
    pub deadline: Option<i64>,
    pub estimated_minutes: Option<u32>,
    pub actual_minutes: Option<u32>,
    pub tags: Seq<Seq<char>>,
    pub remind_at: Option<i64>,
    pub reminded_at: Option<i64>,
    pub repeat_mode: Option<Seq<char>>,
    pub repeat_days_mask: Option<i64>,
    pub is_archived: bool,
    pub sort_order: i32,
}

impl TaskView {
    /// The two rules of a task's life: `completed_at` is set exactly while
    /// the task is `Done`, and a reminder is never both pending and fired.
    pub open spec fn lifecycle_ok(self) -> bool {
        &&& (self.completed_at is Some <==> self.status == Status::Done)
        &&& !(self.remind_at is Some && self.reminded_at is Some)
    }
}

impl View for Task {
    type V = TaskView;

    open spec fn view(&self) -> TaskView {
        TaskView {
            id: self.id@,
            project_id: self.project_id.deep_view(),
            title: self.title@,
            description: self.description.deep_view(),
            priority: self.priority,
            status: self.status,
            created_at: self.created_at,
            completed_at: self.completed_at,
            deadline: self.deadline,
            estimated_minutes: self.estimated_minutes,
            actual_minutes: self.actual_minutes,
            tags: self.tags.deep_view(),
            remind_at: self.remind_at,
            reminded_at: self.reminded_at,
            repeat_mode: self.repeat_mode.deep_view(),
            repeat_days_mask: self.repeat_days_mask,
            is_archived: self.is_archived,
            sort_order: self.sort_order,
        }
    }
}

impl Clone for Task {
    fn clone(&self) -> (r: Task)
        ensures
            r@ == self@,
    {
        Task {
            id: self.id.clone(),
            project_id: copy_opt_text(&self.project_id),
            title: self.title.clone(),
            description: copy_opt_text(&self.description),
            priority: self.priority,
            status: self.status,
            created_at: self.created_at,
            completed_at: self.completed_at,
            deadline: self.deadline,
            estimated_minutes: self.estimated_minutes,
            actual_minutes: self.actual_minutes,
            tags: copy_texts(&self.tags),
            remind_at: self.remind_at,
            reminded_at: self.reminded_at,
            repeat_mode: copy_opt_text(&self.repeat_mode),
            repeat_days_mask: self.repeat_days_mask,
            is_archived: self.is_archived,
            sort_order: self.sort_order,
        }
    }
}

/// What a caller hands over to have a task created.
#[derive(Debug, PartialEq, Eq)]
pub struct NewTask {
    /// Empty to have an identity assigned.
    pub id: String,
    pub project_id: Option<String>,
    pub title: String,
    pub description: Option<String>,
    pub priority: Priority,
    pub status: Status,
    pub created_at: i64,
    pub deadline: Option<i64>,
    pub estimated_minutes: Option<u32>,
    pub actual_minutes: Option<u32>,
    pub tags: Vec<String>,
    pub remind_at: Option<i64>,
    pub repeat_mode: Option<String>,
    pub repeat_days_mask: Option<i64>,
}

/// What a [`NewTask`] holds.
pub struct NewTaskView {
    pub id: Seq<char>,
    pub project_id: Option<Seq<char>>,
    pub title: Seq<char>,
    pub description: Option<Seq<char>>,
    pub priority: Priority,
    pub status: Status,
    pub created_at: i64,
    pub deadline: Option<i64>,
    pub estimated_minutes: Option<u32>,
    pub actual_minutes: Option<u32>,
    pub tags: Seq<Seq<char>>,
    pub remind_at: Option<i64>,
    pub repeat_mode: Option<Seq<char>>,
    pub repeat_days_mask: Option<i64>,
}

impl View for NewTask {
    type V = NewTaskView;

    open spec fn view(&self) -> NewTaskView {
        NewTaskView {
            id: self.id@,
            project_id: self.project_id.deep_view(),
            title: self.title@,
            description: self.description.deep_view(),
            priority: self.priority,
            status: self.status,
            created_at: self.created_at,
            deadline: self.deadline,
            estimated_minutes: self.estimated_minutes,
            actual_minutes: self.actual_minutes,
            tags: self.tags.deep_view(),
            remind_at: self.remind_at,
            repeat_mode: self.repeat_mode.deep_view(),
            repeat_days_mask: self.repeat_days_mask,
        }
    }
}

impl Clone for NewTask {
    fn clone(&self) -> (r: NewTask)
        ensures
            r@ == self@,
    {
        NewTask {
            id: self.id.clone(),
            project_id: copy_opt_text(&self.project_id),
            title: self.title.clone(),
            description: copy_opt_text(&self.description),
            priority: self.priority,
            status: self.status,
            created_at: self.created_at,
            deadline: self.deadline,
            estimated_minutes: self.estimated_minutes,
            actual_minutes: self.actual_minutes,
            tags: copy_texts(&self.tags),
            remind_at: self.remind_at,
            repeat_mode: copy_opt_text(&self.repeat_mode),
            repeat_days_mask: self.repeat_days_mask,
        }
    }
}

/// One timed stretch of work on a task.
#[derive(Debug, PartialEq, Eq)]
pub struct FocusSession {
    pub id: String,
    pub task_id: String,
    pub duration_minutes: i32,
    pub completed: bool,
    pub started_at: i64,
    pub ended_at: Option<i64>,
}

/// What a [`FocusSession`] holds.
pub struct FocusSessionView {
    pub id: Seq<char>,
    pub task_id: Seq<char>,
    pub duration_minutes: i32,
    pub completed: bool,
    pub started_at: i64,
    pub ended_at: Option<i64>,
}

impl View for FocusSession {
    type V = FocusSessionView;

    open spec fn view(&self) -> FocusSessionView {
        FocusSessionView {
            id: self.id@,
            task_id: self.task_id@,
            duration_minutes: self.duration_minutes,
            completed: self.completed,
            started_at: self.started_at,
            ended_at: self.ended_at,
        }
    }
}

impl Clone for FocusSession {
    fn clone(&self) -> (r: FocusSession)
        ensures
            r@ == self@,
    {
        FocusSession {
            id: self.id.clone(),
            task_id: self.task_id.clone(),
            duration_minutes: self.duration_minutes,
            completed: self.completed,
            started_at: self.started_at,
            ended_at: self.ended_at,
        }
    }
}

/// The figures that the statistics report.
#[derive(Debug, Clone, Copy, PartialEq, Eq, Structural)]
pub struct UserStats {
    pub total_tasks: i32,
    pub completed_tasks: i32,
    pub completed_today: i32,
    pub completed_week: i32,
    pub best_streak: u32,
    /// Minutes.
    pub total_focus_time: u32,
    pub tasks_today: i32,
    pub tasks_week: i32,
    pub current_streak: u32,
    pub level: u32,
    pub points: i32,
}

/// The one row of settings.
#[derive(Debug, Clone, Copy, PartialEq, Eq, Structural)]
pub struct AppSettings {
    pub pomodoro_length: u32,
    pub short_break_length: u32,
    pub long_break_length: u32,
    pub pomodoros_until_long_break: u32,
    pub sound_enabled: bool,
    pub auto_start_breaks: bool,
    pub auto_start_pomodoros: bool,
    pub global_shortcuts_enabled: bool,
    pub start_minimized: bool,
    pub close_to_tray: bool,
    /// How many minutes before its deadline a task's reminder is due.
    pub reminder_lead_minutes: u32,
}

impl AppSettings {
    /// The settings of a store in which none were ever saved.
    pub open spec fn initial() -> AppSettings {
        AppSettings {
            pomodoro_length: 25,
            short_break_length: 5,
            long_break_length: 15,
            pomodoros_until_long_break: 4,
            sound_enabled: true,
            auto_start_breaks: false,
            auto_start_pomodoros: false,
            global_shortcuts_enabled: true,
            start_minimized: false,
            close_to_tray: true,
            reminder_lead_minutes: 30,
        }
    }
}

impl Default for AppSettings {
    fn default() -> (s: AppSettings)
        ensures
            s == AppSettings::initial(),
    {
        AppSettings {
            pomodoro_length: 25,
            short_break_length: 5,
            long_break_length: 15,
            pomodoros_until_long_break: 4,
            sound_enabled: true,
            auto_start_breaks: false,
            auto_start_pomodoros: false,
            global_shortcuts_enabled: true,
            start_minimized: false,
            close_to_tray: true,
            reminder_lead_minutes: 30,
        }
    }
}

} // verus!
