//! Rows as a relational store holds them, and the entities that they stand
//! for: numbers for priorities and statuses, one text for the tags, and
//! wide integers where the entity has narrow ones.

use crate::models::{
    copy_opt_text, AppSettings, Priority, Project, ProjectView, Status, Subtask, SubtaskView, Task,
    TaskView,
};
use vstd::prelude::*;

verus! {

/// The JSON text that `serde_json` writes for a list of texts; `None` where
/// it writes none.
pub uninterp spec fn tags_json(tags: Seq<Seq<char>>) -> Option<Seq<char>>;

/// The list of texts that `serde_json` reads from a JSON text; `None` where
/// the text is not a JSON array of strings.
pub uninterp spec fn json_tags(text: Seq<char>) -> Option<Seq<Seq<char>>>;

/// Has `serde_json::to_string` write a list of texts as JSON. The text is a
/// function of the list alone and is named [`tags_json`]; nothing more is
/// claimed of it.
#[verifier::external_body]
pub(crate) fn write_tags(tags: &Vec<String>) -> (r: Option<String>)
    ensures
        r.deep_view() == tags_json(tags.deep_view()),
{
    match serde_json::to_string(tags) {
        Ok(text) => Some(text),
        Err(_) => None,
    }
}

/// Has `serde_json::from_str` read a list of texts from JSON. The list is a
/// function of the text alone and is named [`json_tags`]; nothing more is
/// claimed of it.
#[verifier::external_body]
pub(crate) fn read_tags(text: &str) -> (r: Option<Vec<String>>)
    ensures
        r.deep_view() == json_tags(text@),
{
    match serde_json::from_str::<Vec<String>>(text) {
        Ok(tags) => Some(tags),
        Err(_) => None,
    }
}

/// The text under which tags are stored: what was written for them, or the
/// empty array where nothing was.
pub open spec fn stored_tags(written: Option<Seq<char>>) -> Seq<char> {
    match written {
        Some(text) => text,
        None => "[]"@,
    }
}

/// The tags that a stored text stands for: what was read from it, or no
/// tags where it could not be read.
pub open spec fn loaded_tags(read: Option<Seq<Seq<char>>>) -> Seq<Seq<char>> {
    match read {
        Some(tags) => tags,
        None => Seq::empty(),
    }
}

/// See [`stored_tags`].
pub fn tags_or_empty_array(written: Option<String>) -> (text: String)
    ensures
        text@ == stored_tags(written.deep_view()),
{
    match written {
        Some(text) => text,
        None => "[]".to_owned(),
    }
}

/// See [`loaded_tags`].
pub fn tags_or_none(read: Option<Vec<String>>) -> (tags: Vec<String>)
    ensures
        tags.deep_view() == loaded_tags(read.deep_view()),
{
    match read {
        Some(tags) => tags,
        None => {
            let tags: Vec<String> = Vec::new();
            assert(tags.deep_view() =~= Seq::<Seq<char>>::empty());
            tags
        },
    }
}

/// The text under which tags are stored: their JSON.
pub fn encode_tags(tags: &Vec<String>) -> (text: String)
    ensures
        text@ == stored_tags(tags_json(tags.deep_view())),
{
    tags_or_empty_array(write_tags(tags))
}

/// The tags that a stored text stands for. A text that is not a JSON array
/// of strings stands for no tags.
pub fn decode_tags(text: &str) -> (tags: Vec<String>)
    ensures
        tags.deep_view() == loaded_tags(json_tags(text@)),
{
    tags_or_none(read_tags(text))
}

/// The number of minutes that a stored integer stands for: its low 32 bits.
pub fn minutes_of(stored: i64) -> (minutes: u32)
    ensures
        minutes == stored as u32,
{
    #[verifier::truncate]
    (stored as u32)
}

/// A project as a row.
#[derive(Debug, PartialEq, Eq)]
pub struct ProjectRow {
    pub id: String,
    pub name: String,
    pub color: String,
    pub priority: i32,
    pub created_at: i64,
}

/// What a [`ProjectRow`] holds.
pub struct ProjectRowView {
    pub id: Seq<char>,
    pub name: Seq<char>,
    pub color: Seq<char>,
    pub priority: i32,
    pub created_at: i64,
}

impl View for ProjectRow {
    type V = ProjectRowView;

    open spec fn view(&self) -> ProjectRowView {
        ProjectRowView {
            id: self.id@,
            name: self.name@,
            color: self.color@,
            priority: self.priority,
            created_at: self.created_at,
        }
    }
}

impl ProjectRowView {
    /// The project that the row stands for.
    pub open spec fn project(self) -> ProjectView {
        ProjectView {
            id: self.id,
            name: self.name,
            color: self.color,
            priority: Priority::of_code(self.priority as int),
            created_at: self.created_at,
        }
    }
}

impl ProjectView {
    /// The row that stands for the project.
    pub open spec fn row(self) -> ProjectRowView {
        ProjectRowView {
            id: self.id,
            name: self.name,
            color: self.color,
            priority: self.priority.code() as i32,
            created_at: self.created_at,
        }
    }
}

impl Project {
    /// The project that a row stands for. A priority that is not known
    /// stands for `Normal`.
    pub fn from_row(row: ProjectRow) -> (p: Project)
        ensures
            p@ == row@.project(),
    {
        Project {
            id: row.id,
            name: row.name,
            color: row.color,
            priority: Priority::from_int(row.priority),
            created_at: row.created_at,
        }
    }

    /// The row that stands for the project.
    pub fn to_row(&self) -> (row: ProjectRow)
        ensures
            row@ == self@.row(),
            row@.project() == self@,
    {
        ProjectRow {
            id: self.id.clone(),
            name: self.name.clone(),
            color: self.color.clone(),
            priority: self.priority.to_int(),
            created_at: self.created_at,
        }
    }
}

/// A subtask as a row.
#[derive(Debug, PartialEq, Eq)]
pub struct SubtaskRow {
    pub id: String,
    pub task_id: String,
    pub title: String,
    pub completed: i32,
    pub sort_order: i32,
    pub created_at: i64,
}

/// What a [`SubtaskRow`] holds.
pub struct SubtaskRowView {
    pub id: Seq<char>,
    pub task_id: Seq<char>,
    pub title: Seq<char>,
    pub completed: i32,
    pub sort_order: i32,
    pub created_at: i64,
}

impl View for SubtaskRow {
    type V = SubtaskRowView;

    open spec fn view(&self) -> SubtaskRowView {
        SubtaskRowView {
            id: self.id@,
            task_id: self.task_id@,
            title: self.title@,
            completed: self.completed,
            sort_order: self.sort_order,
            created_at: self.created_at,
        }
    }
}

impl SubtaskRowView {
    /// The subtask that the row stands for: done where the stored number is
    /// not 0.
    pub open spec fn subtask(self) -> SubtaskView {
        SubtaskView {
            id: self.id,
            task_id: self.task_id,
            title: self.title,
            completed: self.completed != 0,
            sort_order: self.sort_order,
            created_at: self.created_at,
        }
    }
}

impl Subtask {
    /// The subtask that a row stands for.
    pub fn from_row(row: SubtaskRow) -> (s: Subtask)
        ensures
            s@ == row@.subtask(),
    {
        Subtask {
            id: row.id,
            task_id: row.task_id,
            title: row.title,
            completed: row.completed != 0,
            sort_order: row.sort_order,
            created_at: row.created_at,
        }
    }

    /// The row that stands for the subtask: 1 for done, 0 for open.
    pub fn to_row(&self) -> (row: SubtaskRow)
        ensures
            row@.subtask() == self@,
            row@.completed == if self@.completed {
                1i32
            } else {
                0i32
            },
    {
        SubtaskRow {
            id: self.id.clone(),
            task_id: self.task_id.clone(),
            title: self.title.clone(),
            completed: if self.completed {
                1
            } else {
                0
            },
            sort_order: self.sort_order,
            created_at: self.created_at,
        }
    }
}

/// The settings as a row: every figure a wide integer, every switch a
/// number.
#[derive(Debug, Clone, Copy, PartialEq, Eq, Structural)]
pub struct SettingsRow {
    pub pomodoro_length: i64,
    pub short_break_length: i64,
    pub long_break_length: i64,
    pub pomodoros_until_long_break: i64,
    pub sound_enabled: i64,
    pub auto_start_breaks: i64,
    pub auto_start_pomodoros: i64,
    pub global_shortcuts_enabled: i64,
    pub start_minimized: i64,
    pub close_to_tray: i64,
    pub reminder_lead_minutes: i64,
}

impl SettingsRow {
    /// The settings that the row stands for: of each figure the low 32
    /// bits, and each switch on where its number is not 0.
    pub open spec fn settings(self) -> AppSettings {
        AppSettings {
            pomodoro_length: self.pomodoro_length as u32,
            short_break_length: self.short_break_length as u32,
            long_break_length: self.long_break_length as u32,
            pomodoros_until_long_break: self.pomodoros_until_long_break as u32,
            sound_enabled: self.sound_enabled != 0,
            auto_start_breaks: self.auto_start_breaks != 0,
            auto_start_pomodoros: self.auto_start_pomodoros != 0,
            global_shortcuts_enabled: self.global_shortcuts_enabled != 0,
            start_minimized: self.start_minimized != 0,
            close_to_tray: self.close_to_tray != 0,
            reminder_lead_minutes: self.reminder_lead_minutes as u32,
        }
    }
}

impl AppSettings {
    /// The settings that a row stands for, or the initial settings where
    /// there is no row.
    pub fn from_row(row: Option<SettingsRow>) -> (s: AppSettings)
        ensures
            s == match row {
                Some(r) => r.settings(),
                None => AppSettings::initial(),
            },
    {
        match row {
            Some(r) => AppSettings {
                pomodoro_length: minutes_of(r.pomodoro_length),
                short_break_length: minutes_of(r.short_break_length),
                long_break_length: minutes_of(r.long_break_length),
                pomodoros_until_long_break: minutes_of(r.pomodoros_until_long_break),
                sound_enabled: r.sound_enabled != 0,
                auto_start_breaks: r.auto_start_breaks != 0,
                auto_start_pomodoros: r.auto_start_pomodoros != 0,
                global_shortcuts_enabled: r.global_shortcuts_enabled != 0,
                start_minimized: r.start_minimized != 0,
                close_to_tray: r.close_to_tray != 0,
                reminder_lead_minutes: minutes_of(r.reminder_lead_minutes),
            },
            None => AppSettings::default(),
        }
    }

    /// The row that stands for the settings.
    pub fn to_row(&self) -> (row: SettingsRow)
        ensures
            row.settings() == *self,
    {
        SettingsRow {
            pomodoro_length: self.pomodoro_length as i64,
            short_break_length: self.short_break_length as i64,
            long_break_length: self.long_break_length as i64,
            pomodoros_until_long_break: self.pomodoros_until_long_break as i64,
            sound_enabled: if self.sound_enabled {
                1
            } else {
                0
            },
            auto_start_breaks: if self.auto_start_breaks {
                1
            } else {
                0
            },
            auto_start_pomodoros: if self.auto_start_pomodoros {
                1
            } else {
                0
            },
            global_shortcuts_enabled: if self.global_shortcuts_enabled {
                1
            } else {
                0
            },
            start_minimized: if self.start_minimized {
                1
            } else {
                0
            },
            close_to_tray: if self.close_to_tray {
                1
            } else {
                0
            },
            reminder_lead_minutes: self.reminder_lead_minutes as i64,
        }
    }
}

/// A task as a row.
#[derive(Debug, PartialEq, Eq)]
pub struct TaskRow {
    pub id: String,
    pub project_id: Option<String>,
    pub title: String,
    pub description: Option<String>,
    pub priority: i32,
    pub status: i32,
    pub created_at: i64,
    pub completed_at: Option<i64>,
    pub deadline: Option<i64>,
    pub estimated_minutes: Option<i64>,
    pub actual_minutes: Option<i64>,
    /// The tags as a JSON array of strings.
    pub tags: String,
    pub remind_at: Option<i64>,
    pub reminded_at: Option<i64>,
    pub repeat_mode: Option<String>,
    pub repeat_days_mask: Option<i64>,
    pub is_archived: i32,
    pub sort_order: i32,
}

/// What a [`TaskRow`] holds.
pub struct TaskRowView {
    pub id: Seq<char>,
    pub project_id: Option<Seq<char>>,
    pub title: Seq<char>,
    pub description: Option<Seq<char>>,
    pub priority: i32,
    pub status: i32,
    pub created_at: i64,
    pub completed_at: Option<i64>,
    pub deadline: Option<i64>,
    pub estimated_minutes: Option<i64>,
    pub actual_minutes: Option<i64>,
    pub tags: Seq<char>,
    pub remind_at: Option<i64>,
    pub reminded_at: Option<i64>,
    pub repeat_mode: Option<Seq<char>>,
    pub repeat_days_mask: Option<i64>,
    pub is_archived: i32,
    pub sort_order: i32,
}

impl View for TaskRow {
    type V = TaskRowView;

    open spec fn view(&self) -> TaskRowView {
        TaskRowView {
            id: self.id@,
            project_id: self.project_id.deep_view(),
            title: self.title@,
            description: self.description.deep_view(),
            priority: self.priority,
            status: self.status,
            created_at: self.created_at,
            completed_at: self.completed_at,
            deadline: self.deadline,
            estimated_minutes: self.estimated_minutes,
            actual_minutes: self.actual_minutes,
            tags: self.tags@,
            remind_at: self.remind_at,
            reminded_at: self.reminded_at,
            repeat_mode: self.repeat_mode.deep_view(),
            repeat_days_mask: self.repeat_days_mask,
            is_archived: self.is_archived,
            sort_order: self.sort_order,
        }
    }
}

/// The minutes that a stored integer stands for, where there is one.
pub open spec fn stored_minutes(stored: Option<i64>) -> Option<u32> {
    match stored {
        Some(v) => Some(v as u32),
        None => None,
    }
}

impl TaskRowView {
    /// The task that the row stands for. A priority that is not known
    /// stands for `Normal`, a status that is not known for `Todo`; tags
    /// that cannot be read stand for no tags; of the minutes the low 32
    /// bits count; and the task is in the archive where the stored number
    /// is not 0.
    pub open spec fn task(self) -> TaskView {
        TaskView {
            id: self.id,
            project_id: self.project_id,
            title: self.title,
            description: self.description,
            priority: Priority::of_code(self.priority as int),
            status: Status::of_code(self.status as int),
            created_at: self.created_at,
            completed_at: self.completed_at,
            deadline: self.deadline,
            estimated_minutes: stored_minutes(self.estimated_minutes),
            actual_minutes: stored_minutes(self.actual_minutes),
            tags: loaded_tags(json_tags(self.tags)),
            remind_at: self.remind_at,
            reminded_at: self.reminded_at,
            repeat_mode: self.repeat_mode,
            repeat_days_mask: self.repeat_days_mask,
            is_archived: self.is_archived != 0,
            sort_order: self.sort_order,
        }
    }
}

/// The minutes that a stored integer stands for, where there is one.
pub fn minutes_of_opt(stored: Option<i64>) -> (minutes: Option<u32>)
    ensures
        minutes == stored_minutes(stored),
{
    match stored {
        Some(v) => Some(minutes_of(v)),
        None => None,
    }
}

/// The integer that is stored for minutes, where there are any.
pub fn minutes_to_stored(minutes: Option<u32>) -> (stored: Option<i64>)
    ensures
        stored_minutes(stored) == minutes,
        stored == widened(minutes),
{
    match minutes {
        Some(m) => {
            assert((m as i64) as u32 == m) by (bit_vector);
            Some(m as i64)
        },
        None => None,
    }
}

impl Task {
    /// The task that a row stands for; see [`TaskRowView::task`].
    pub fn from_row(row: TaskRow) -> (t: Task)
        ensures
            t@ == row@.task(),
    {
        Task {
            tags: decode_tags(row.tags.as_str()),
            id: row.id,
            project_id: row.project_id,
            title: row.title,
            description: row.description,
            priority: Priority::from_int(row.priority),
            status: Status::from_int(row.status),
            created_at: row.created_at,
            completed_at: row.completed_at,
            deadline: row.deadline,
            estimated_minutes: minutes_of_opt(row.estimated_minutes),
            actual_minutes: minutes_of_opt(row.actual_minutes),
            remind_at: row.remind_at,
            reminded_at: row.reminded_at,
            repeat_mode: row.repeat_mode,
            repeat_days_mask: row.repeat_days_mask,
            is_archived: row.is_archived != 0,
            sort_order: row.sort_order,
        }
    }

    /// The row that stands for the task; see [`TaskView::row`]. Read back,
    /// the row stands for the same task, but for its tags, which are
    /// whatever is read from their JSON.
    pub fn to_row(&self) -> (row: TaskRow)
        ensures
            row@ == self@.row(),
            row@.task() == (TaskView { tags: loaded_tags(json_tags(row@.tags)), ..self@ }),
    {
        TaskRow {
            id: self.id.clone(),
            project_id: copy_opt_text(&self.project_id),
            title: self.title.clone(),
            description: copy_opt_text(&self.description),
            priority: self.priority.to_int(),
            status: self.status.to_int(),
            created_at: self.created_at,
            completed_at: self.completed_at,
            deadline: self.deadline,
            estimated_minutes: minutes_to_stored(self.estimated_minutes),
            actual_minutes: minutes_to_stored(self.actual_minutes),
            tags: encode_tags(&self.tags),
            remind_at: self.remind_at,
            reminded_at: self.reminded_at,
            repeat_mode: copy_opt_text(&self.repeat_mode),
            repeat_days_mask: self.repeat_days_mask,
            is_archived: if self.is_archived {
                1
            } else {
                0
            },
            sort_order: self.sort_order,
        }
    }
}

/// The integer that is stored for minutes, where there are any.
pub open spec fn widened(minutes: Option<u32>) -> Option<i64> {
    match minutes {
        Some(m) => Some(m as i64),
        None => None,
    }
}

impl TaskView {
    /// The row that stands for the task: its tags as JSON, or as the empty
    /// array where no JSON was written; its priority and status as
    /// numbers; 1 for a task in the archive and 0 for one outside.
    pub open spec fn row(self) -> TaskRowView {
        TaskRowView {
            id: self.id,
            project_id: self.project_id,
            title: self.title,
            description: self.description,
            priority: self.priority.code() as i32,
            status: self.status.code() as i32,
            created_at: self.created_at,
            completed_at: self.completed_at,
            deadline: self.deadline,
            estimated_minutes: widened(self.estimated_minutes),
            actual_minutes: widened(self.actual_minutes),
            tags: stored_tags(tags_json(self.tags)),
            remind_at: self.remind_at,
            reminded_at: self.reminded_at,
            repeat_mode: self.repeat_mode,
            repeat_days_mask: self.repeat_days_mask,
            is_archived: if self.is_archived {
                1
            } else {
                0
            },
            sort_order: self.sort_order,
        }
    }
}

} // verus!
