//! Tasks: their status, priority, progress, due date and lifecycle.
use vstd::prelude::*;
use vstd::string::StringExecFns;

use crate::calendar::{CivilDate, Timestamp};
use crate::ids::{ProjectId, TagId, TaskId};
use crate::text::{char_count, trim, trimmed};

verus! {

/// Workflow state of a task. `Inbox` is a legacy state that reads as `Todo`.
#[derive(Clone, Copy, Debug, PartialEq, Eq, Hash, Structural)]
pub enum TaskStatus {
    Inbox,
    Todo,
    Doing,
    Blocked,
    Done,
    Archived,
}

/// Importance of a task, from lowest to highest.
#[derive(Clone, Copy, Debug, PartialEq, Eq, Hash, Structural)]
pub enum Priority {
    Unset,
    Low,
    Medium,
    High,
}

/// When a task is due: not at all, on a date, or at an instant.
#[derive(Clone, Copy, Debug, PartialEq, Eq, Structural)]
pub enum Due {
    Unset,
    Date(CivilDate),
    DateTime(Timestamp),
}

pub open spec fn status_label(s: TaskStatus) -> Seq<char> {
    match s {
        TaskStatus::Inbox => "受信箱"@,
        TaskStatus::Todo => "未着手"@,
        TaskStatus::Doing => "進行中"@,
        TaskStatus::Blocked => "保留"@,
        TaskStatus::Done => "完了"@,
        TaskStatus::Archived => "アーカイブ"@,
    }
}

pub open spec fn priority_label(p: Priority) -> Seq<char> {
    match p {
        Priority::Unset => "なし"@,
        Priority::Low => "低"@,
        Priority::Medium => "中"@,
        Priority::High => "高"@,
    }
}

/// Position of a priority in the order None < Low < Medium < High.
pub open spec fn priority_rank(p: Priority) -> int {
    match p {
        Priority::Unset => 0,
        Priority::Low => 1,
        Priority::Medium => 2,
        Priority::High => 3,
    }
}

impl TaskStatus {
    /// The display label of the status.
    pub fn label(&self) -> (r: String)
        ensures
            r@ == status_label(*self),
    {
        match self {
            TaskStatus::Inbox => String::from_str("受信箱"),
            TaskStatus::Todo => String::from_str("未着手"),
            TaskStatus::Doing => String::from_str("進行中"),
            TaskStatus::Blocked => String::from_str("保留"),
            TaskStatus::Done => String::from_str("完了"),
            TaskStatus::Archived => String::from_str("アーカイブ"),
        }
    }
}

impl Priority {
    /// The display label of the priority.
    pub fn label(&self) -> (r: String)
        ensures
            r@ == priority_label(*self),
    {
        match self {
            Priority::Unset => String::from_str("なし"),
            Priority::Low => String::from_str("低"),
            Priority::Medium => String::from_str("中"),
            Priority::High => String::from_str("高"),
        }
    }

    /// Position in the order None < Low < Medium < High.
    pub fn rank(&self) -> (r: u8)
        ensures
            r == priority_rank(*self),
    {
        match self {
            Priority::Unset => 0,
            Priority::Low => 1,
            Priority::Medium => 2,
            Priority::High => 3,
        }
    }
}

impl Due {
    pub open spec fn wf(self) -> bool {
        match self {
            Due::Unset => true,
            Due::Date(d) => d.wf(),
            Due::DateTime(t) => t.wf(),
        }
    }
}

/// The mathematical content of a task.
pub struct TaskView {
    pub id: TaskId,
    pub title: Seq<char>,
    pub memo: Seq<char>,
    pub status: TaskStatus,
    pub priority: Priority,
    pub progress: u8,
    pub due: Due,
    pub project_id: Option<ProjectId>,
    pub tag_ids: Seq<TagId>,
    pub sort_order: i64,
    pub created_at: Timestamp,
    pub updated_at: Timestamp,
    pub deleted_at: Option<Timestamp>,
}

/// A task of the list.
#[derive(Clone, Debug)]
pub struct Task {
    pub id: TaskId,
    pub title: String,
    pub memo: String,
    pub status: TaskStatus,
    pub priority: Priority,
    /// Percentage done, 0 to 100.
    pub progress: u8,
    pub due: Due,
    pub project_id: Option<ProjectId>,
    pub tag_ids: Vec<TagId>,
    /// Manual rank of the task in the list.
    pub sort_order: i64,
    pub created_at: Timestamp,
    pub updated_at: Timestamp,
    /// When the task was moved to the trash.
    pub deleted_at: Option<Timestamp>,
}

impl View for Task {
    type V = TaskView;

    open spec fn view(&self) -> TaskView {
        TaskView {
            id: self.id,
            title: self.title@,
            memo: self.memo@,
            status: self.status,
            priority: self.priority,
            progress: self.progress,
            due: self.due,
            project_id: self.project_id,
            tag_ids: self.tag_ids@,
            sort_order: self.sort_order,
            created_at: self.created_at,
            updated_at: self.updated_at,
            deleted_at: self.deleted_at,
        }
    }
}

/// The message given for a title that is blank or longer than 500 characters.
pub open spec fn title_error() -> Seq<char> {
    "タイトルは1〜500文字で入力してください"@
}

/// The message given for a progress value above 100.
pub open spec fn progress_error() -> Seq<char> {
    "進捗は0〜100の整数で入力してください"@
}

/// A title has at least one non-white-space character and at most 500 characters.
pub open spec fn title_is_valid(title: Seq<char>) -> bool {
    trimmed(title).len() > 0 && title.len() <= 500
}

/// Whether `title` is a valid task title.
pub fn validate_title(title: &str) -> (r: Result<(), String>)
    ensures
        r is Ok <==> title_is_valid(title@),
        r matches Err(m) ==> m@ == title_error(),
{
    let t = trim(title);
    if char_count(t.as_str()) == 0 || char_count(title) > 500 {
        return Err(String::from_str("タイトルは1〜500文字で入力してください"));
    }
    Ok(())
}

/// The same tag list.
pub fn copy_tags(tags: &Vec<TagId>) -> (r: Vec<TagId>)
    ensures
        r@ == tags@,
{
    let mut out: Vec<TagId> = Vec::new();
    let mut i: usize = 0;
    while i < tags.len()
        invariant
            i <= tags.len(),
            out@ == tags@.subrange(0, i as int),
        decreases tags.len() - i,
    {
        out.push(tags[i]);
        assert(tags@.subrange(0, i + 1) == tags@.subrange(0, i as int).push(tags@[i as int]));
        i = i + 1;
    }
    assert(tags@.subrange(0, tags@.len() as int) == tags@);
    out
}

/// The progress after a status change: entering Done completes the task, leaving
/// Done resets it.
pub open spec fn progress_after_status(old_status: TaskStatus, new_status: TaskStatus, progress: u8) -> u8 {
    if new_status == TaskStatus::Done {
        100
    } else if old_status == TaskStatus::Done {
        0
    } else {
        progress
    }
}

impl Task {
    pub open spec fn wf(self) -> bool {
        &&& self.progress <= 100
        &&& self.due.wf()
        &&& self.created_at.wf()
        &&& self.updated_at.wf()
        &&& (self.deleted_at matches Some(t) ==> t.wf())
    }

    /// A new to-do task with the given identifier, created at `now`.
    pub fn with_id(id: TaskId, title: &str, now: Timestamp) -> (r: Result<Task, String>)
        requires
            now.wf(),
        ensures
            r is Ok <==> title_is_valid(title@),
            r matches Err(m) ==> m@ == title_error(),
            r matches Ok(t) ==> {
                &&& t.wf()
                &&& t@ == (TaskView {
                    id,
                    title: title@,
                    memo: Seq::empty(),
                    status: TaskStatus::Todo,
                    priority: Priority::Unset,
                    progress: 0,
                    due: Due::Unset,
                    project_id: None,
                    tag_ids: Seq::empty(),
                    sort_order: 0,
                    created_at: now,
                    updated_at: now,
                    deleted_at: None,
                })
            },
    {
        match validate_title(title) {
            Err(m) => Err(m),
            Ok(()) => Ok(
                Task {
                    id,
                    title: String::from_str(title),
                    memo: String::new(),
                    status: TaskStatus::Todo,
                    priority: Priority::Unset,
                    progress: 0,
                    due: Due::Unset,
                    project_id: None,
                    tag_ids: Vec::new(),
                    sort_order: 0,
                    created_at: now,
                    updated_at: now,
                    deleted_at: None,
                },
            ),
        }
    }

    /// A new to-do task with a fresh random identifier, created at `now`.
    pub fn new(title: &str, now: Timestamp) -> (r: Result<Task, String>)
        requires
            now.wf(),
        ensures
            r is Ok <==> title_is_valid(title@),
            r matches Err(m) ==> m@ == title_error(),
            r matches Ok(t) ==> {
                &&& t.wf()
                &&& t@ == (TaskView {
                    id: t.id,
                    title: title@,
                    memo: Seq::empty(),
                    status: TaskStatus::Todo,
                    priority: Priority::Unset,
                    progress: 0,
                    due: Due::Unset,
                    project_id: None,
                    tag_ids: Seq::empty(),
                    sort_order: 0,
                    created_at: now,
                    updated_at: now,
                    deleted_at: None,
                })
            },
    {
        Task::with_id(TaskId::new(), title, now)
    }

    /// A copy with the same content.
    pub fn copy(&self) -> (r: Task)
        ensures
            r@ == self@,
    {
        Task {
            id: self.id,
            title: self.title.clone(),
            memo: self.memo.clone(),
            status: self.status,
            priority: self.priority,
            progress: self.progress,
            due: self.due,
            project_id: self.project_id,
            tag_ids: copy_tags(&self.tag_ids),
            sort_order: self.sort_order,
            created_at: self.created_at,
            updated_at: self.updated_at,
            deleted_at: self.deleted_at,
        }
    }

    /// Records a modification at `now`.
    pub fn touch(&mut self, now: Timestamp)
        ensures
            final(self)@ == (TaskView { updated_at: now, ..old(self)@ }),
    {
        self.updated_at = now;
    }

    /// Replaces the title when the new one is valid; the task is unchanged otherwise.
    pub fn set_title(&mut self, title: &str) -> (r: Result<(), String>)
        ensures
            r is Ok <==> title_is_valid(title@),
            r matches Err(m) ==> m@ == title_error() && final(self)@ == old(self)@,
            r is Ok ==> final(self)@ == (TaskView { title: title@, ..old(self)@ }),
    {
        validate_title(title)?;
        self.title = String::from_str(title);
        Ok(())
    }

    /// Sets the progress when it is at most 100; the task is unchanged otherwise.
    pub fn set_progress(&mut self, progress: u8) -> (r: Result<(), String>)
        ensures
            r is Ok <==> progress <= 100,
            r matches Err(m) ==> m@ == progress_error() && final(self)@ == old(self)@,
            r is Ok ==> final(self)@ == (TaskView { progress, ..old(self)@ }),
    {
        if progress > 100 {
            return Err(String::from_str("進捗は0〜100の整数で入力してください"));
        }
        self.progress = progress;
        Ok(())
    }

    /// Moves the task to `status` at `now`. Entering Done sets the progress to 100,
    /// leaving Done resets it to 0. Setting the current status changes nothing.
    pub fn set_status(&mut self, status: TaskStatus, now: Timestamp)
        ensures
            status == old(self).status ==> final(self)@ == old(self)@,
            status != old(self).status ==> final(self)@ == (TaskView {
                status,
                progress: progress_after_status(old(self).status, status, old(self).progress),
                updated_at: now,
                ..old(self)@
            }),
    {
        if status == self.status {
            return;
        }
        if status == TaskStatus::Done {
            self.progress = 100;
        } else if self.status == TaskStatus::Done {
            self.progress = 0;
        }
        self.status = status;
        self.touch(now);
    }

    /// Moves the task to the trash at `now`.
    pub fn move_to_trash(&mut self, now: Timestamp)
        ensures
            final(self)@ == (TaskView { deleted_at: Some(now), updated_at: now, ..old(self)@ }),
    {
        self.deleted_at = Some(now);
        self.touch(now);
    }

    /// Takes the task back out of the trash at `now`.
    pub fn restore(&mut self, now: Timestamp)
        ensures
            final(self)@ == (TaskView { deleted_at: None, updated_at: now, ..old(self)@ }),
    {
        self.deleted_at = None;
        self.touch(now);
    }
}

/// Whether two tasks have the same content (`Task == Task`).
pub fn same_task(a: &Task, b: &Task) -> (r: bool)
    ensures
        r == (a@ == b@),
{
    if a.id != b.id || a.status != b.status || a.priority != b.priority || a.progress != b.progress
        || a.due != b.due || a.project_id != b.project_id || a.sort_order != b.sort_order
        || a.created_at != b.created_at || a.updated_at != b.updated_at || a.deleted_at
        != b.deleted_at {
        return false;
    }
    if !crate::text::same_text(a.title.as_str(), b.title.as_str()) || !crate::text::same_text(
        a.memo.as_str(),
        b.memo.as_str(),
    ) {
        return false;
    }
    if a.tag_ids.len() != b.tag_ids.len() {
        return false;
    }
    let mut i: usize = 0;
    while i < a.tag_ids.len()
        invariant
            i <= a.tag_ids.len() == b.tag_ids.len(),
            forall|k: int| 0 <= k < i ==> a.tag_ids@[k] == b.tag_ids@[k],
        decreases a.tag_ids.len() - i,
    {
        if a.tag_ids[i] != b.tag_ids[i] {
            assert(a.tag_ids@[i as int] != b.tag_ids@[i as int]);
            return false;
        }
        i = i + 1;
    }
    assert(a.tag_ids@ =~= b.tag_ids@);
    true
}

} // verus!
