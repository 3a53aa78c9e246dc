//! Editing tasks: the new-task form, the detail form, duplicates, single and bulk
//! updates, autosaved title and memo edits, manual reordering and the trash.
use vstd::prelude::*;
use vstd::string::StringExecFns;

use crate::calendar::{Timestamp, UtcOffset};
use crate::due::{due_of_input, due_format_error, parse_due_at};
use crate::task::{Due, Priority, Task, TaskStatus, TaskView, progress_after_status, progress_error, title_error, title_is_valid};
use crate::text::{
    append_chars, append_str, decimal, decimal_chars, parse_u8, parsed_u8, same_text, string_of, trim, trimmed,
};
use crate::history::{
    ChangeView, TaskChange, apply_changes, change_for, change_id, change_views, edits_applied,
    edits_recorded_from, first_index, has_change, has_id, ids_unique, is_edit, lemma_apply_edits,
    lemma_first_index_found, lemma_undo_restores_edits, position_of,
};
use crate::ids::TaskId;
use crate::sorting::views;
use crate::task::same_task;

use crate::seqs::lemma_filter_push;

verus! {

/// Why a form could not be saved; each carries the message shown to the user. A
/// due-date error is also shown beside the due input.
#[derive(Clone, Debug)]
pub enum FormError {
    Title(String),
    Due(String),
    Progress(String),
}

/// The choices of the new-task form that are not typed.
#[derive(Clone, Copy, Debug, PartialEq, Eq, Structural)]
pub struct NewTaskDraft {
    pub status: TaskStatus,
    pub priority: Priority,
    pub progress: u8,
}

impl Default for NewTaskDraft {
    /// To do, no priority, no progress.
    fn default() -> (r: NewTaskDraft)
        ensures
            r == (NewTaskDraft { status: TaskStatus::Todo, priority: Priority::Unset, progress: 0 }),
    {
        NewTaskDraft { status: TaskStatus::Todo, priority: Priority::Unset, progress: 0 }
    }
}

impl NewTaskDraft {
    /// Chooses a status: choosing Done sets the progress to 100, leaving Done resets
    /// it to 0.
    pub fn set_status(&mut self, status: TaskStatus)
        ensures
            final(self).status == status,
            final(self).priority == old(self).priority,
            final(self).progress == if status == TaskStatus::Done {
                100u8
            } else if old(self).status == TaskStatus::Done {
                0u8
            } else {
                old(self).progress
            },
    {
        if status == TaskStatus::Done {
            self.progress = 100;
        } else if self.status == TaskStatus::Done {
            self.progress = 0;
        }
        self.status = status;
    }

    /// Chooses a priority.
    pub fn set_priority(&mut self, priority: Priority)
        ensures
            *final(self) == (NewTaskDraft { priority, ..*old(self) }),
    {
        self.priority = priority;
    }

    /// Chooses a progress.
    pub fn set_progress(&mut self, progress: u8)
        ensures
            *final(self) == (NewTaskDraft { progress, ..*old(self) }),
    {
        self.progress = progress;
    }
}

/// The progress typed as `text`: an integer from 0 to 100 once white space is
/// trimmed.
pub open spec fn progress_of_text(text: Seq<char>) -> Option<u8> {
    match parsed_u8(trimmed(text)) {
        Some(p) => if p <= 100 {
            Some(p)
        } else {
            None
        },
        None => None,
    }
}

/// Reads the progress input (`value().trim().parse::<u8>()`, at most 100).
pub fn parse_progress(text: &str) -> (r: Option<u8>)
    ensures
        r == progress_of_text(text@),
{
    let t = trim(text);
    match parse_u8(t.as_str()) {
        Some(p) => if p <= 100 {
            Some(p)
        } else {
            None
        },
        None => None,
    }
}

/// The largest manual rank of `tasks` (0 for none).
pub open spec fn max_rank(tasks: Seq<TaskView>) -> int
    decreases tasks.len(),
{
    if tasks.len() == 0 {
        0
    } else if tasks.len() == 1 {
        tasks[0].sort_order as int
    } else {
        let m = max_rank(tasks.drop_last());
        if tasks.last().sort_order > m {
            tasks.last().sort_order as int
        } else {
            m
        }
    }
}

proof fn lemma_max_rank_bounds(tasks: Seq<TaskView>)
    requires
        tasks.len() > 0,
    ensures
        forall|i: int| 0 <= i < tasks.len() ==> tasks[i].sort_order <= max_rank(tasks),
        exists|i: int| 0 <= i < tasks.len() && tasks[i].sort_order == max_rank(tasks),
    decreases tasks.len(),
{
    if tasks.len() == 1 {
        assert(tasks[0].sort_order == max_rank(tasks));
    } else {
        let d = tasks.drop_last();
        lemma_max_rank_bounds(d);
        assert forall|i: int| 0 <= i < tasks.len() implies tasks[i].sort_order <= max_rank(tasks) by {
            if i < d.len() {
                assert(d[i] == tasks[i]);
            }
        }
        if tasks.last().sort_order > max_rank(d) {
            assert(tasks[tasks.len() - 1].sort_order == max_rank(tasks));
        } else {
            let i = choose|i: int| 0 <= i < d.len() && d[i].sort_order == max_rank(d);
            assert(tasks[i] == d[i]);
        }
    }
}

/// The rank of a new task: 1024 after the largest rank (after 0 when there are no
/// tasks).
pub fn next_sort_order(tasks: &Vec<Task>) -> (r: i64)
    requires
        max_rank(crate::sorting::views(tasks@)) + 1024 <= i64::MAX,
    ensures
        r == max_rank(crate::sorting::views(tasks@)) + 1024,
{
    let ghost tv = crate::sorting::views(tasks@);
    if tasks.len() == 0 {
        return 1024;
    }
    let mut m: i64 = tasks[0].sort_order;
    let mut i: usize = 1;
    proof {
        assert(tv.subrange(0, 1)[0] == tv[0]);
    }
    while i < tasks.len()
        invariant
            1 <= i <= tasks.len(),
            tv == crate::sorting::views(tasks@),
            m == max_rank(tv.subrange(0, i as int)),
        decreases tasks.len() - i,
    {
        proof {
            let s = tv.subrange(0, i + 1);
            assert(s.drop_last() == tv.subrange(0, i as int));
            assert(s.last() == tv[i as int]);
            assert(tv[i as int] == tasks@[i as int]@);
        }
        if tasks[i].sort_order > m {
            m = tasks[i].sort_order;
        }
        i = i + 1;
    }
    proof {
        assert(tv.subrange(0, tasks.len() as int) == tv);
    }
    m + 1024
}

/// The task that the new-task form creates, before its rank and identifier are
/// looked at: the typed title and memo, the draft's status, priority and the typed
/// progress, and the typed due date.
pub open spec fn drafted_task(
    t: TaskView,
    draft: NewTaskDraft,
    title: Seq<char>,
    memo: Seq<char>,
    due: Due,
    progress: u8,
    rank: int,
    now: Timestamp,
) -> bool {
    &&& t.title == title
    &&& t.memo == memo
    &&& t.status == draft.status
    &&& t.priority == draft.priority
    &&& t.progress == progress
    &&& t.due == due
    &&& t.project_id is None
    &&& t.tag_ids.len() == 0
    &&& t.sort_order == rank
    &&& t.created_at == now
    &&& t.updated_at == now
    &&& t.deleted_at is None
}

/// Creates the task of the new-task form. The due input is checked
/// first, then the progress input, then the title; the new task gets a fresh
/// identifier and the rank after every existing task.
pub fn new_task_from_form(
    draft: &NewTaskDraft,
    title: &str,
    memo: &str,
    due_text: &str,
    progress_text: &str,
    tasks: &Vec<Task>,
    now: Timestamp,
    offset: &UtcOffset,
) -> (r: Result<Task, FormError>)
    requires
        now.wf(),
        offset.wf(),
        max_rank(crate::sorting::views(tasks@)) + 1024 <= i64::MAX,
    ensures
        due_of_input(due_text@, *offset) is None ==> (r matches Err(FormError::Due(m)) && m@ == due_format_error()),
        due_of_input(due_text@, *offset) is Some && progress_of_text(progress_text@) is None ==> (r matches Err(
            FormError::Progress(m),
        ) && m@ == progress_error()),
        due_of_input(due_text@, *offset) is Some && progress_of_text(progress_text@) is Some && !title_is_valid(
            title@,
        ) ==> (r matches Err(FormError::Title(m)) && m@ == title_error()),
        due_of_input(due_text@, *offset) is Some && progress_of_text(progress_text@) is Some && title_is_valid(title@)
            ==> (r matches Ok(t) && t.wf() && drafted_task(
            t@,
            *draft,
            title@,
            memo@,
            due_of_input(due_text@, *offset).unwrap(),
            progress_of_text(progress_text@).unwrap(),
            max_rank(crate::sorting::views(tasks@)) + 1024,
            now,
        )),
{
    let due = match parse_due_at(due_text, offset) {
        Ok(d) => d,
        Err(m) => return Err(FormError::Due(m)),
    };
    let progress = match parse_progress(progress_text) {
        Some(p) => p,
        None => return Err(FormError::Progress(String::from_str("進捗は0〜100の整数で入力してください"))),
    };
    let mut task = match Task::new(title, now) {
        Ok(t) => t,
        Err(m) => return Err(FormError::Title(m)),
    };
    task.memo = String::from_str(memo);
    task.set_status(draft.status, now);
    task.priority = draft.priority;
    let _ = task.set_progress(progress);
    task.due = due;
    task.sort_order = next_sort_order(tasks);
    Ok(task)
}

/// The title of a duplicate: the source title followed by ` のコピー`.
pub open spec fn copy_title(title: Seq<char>) -> Seq<char> {
    title + " のコピー"@
}

/// A duplicate of `source`: a fresh identifier, the title
/// followed by ` のコピー`, the same memo, status, priority, progress, due date,
/// project and tags, the rank after every existing task, created at `now`. None when
/// the longer title is not a valid title.
pub fn duplicate_of(source: &Task, tasks: &Vec<Task>, now: Timestamp) -> (r: Option<Task>)
    requires
        now.wf(),
        source.wf(),
        max_rank(crate::sorting::views(tasks@)) + 1024 <= i64::MAX,
    ensures
        r is Some <==> title_is_valid(copy_title(source.title@)),
        r matches Some(t) ==> t.wf() && t@ == (TaskView {
            id: t.id,
            title: copy_title(source.title@),
            sort_order: (max_rank(crate::sorting::views(tasks@)) + 1024) as i64,
            created_at: now,
            updated_at: now,
            deleted_at: None,
            ..source@
        }),
{
    let mut title = source.title.clone();
    append_str(&mut title, " のコピー");
    let mut copy = match Task::new(title.as_str(), now) {
        Ok(t) => t,
        Err(_) => return None,
    };
    copy.memo = source.memo.clone();
    copy.status = source.status;
    copy.priority = source.priority;
    copy.progress = source.progress;
    copy.due = source.due;
    copy.project_id = source.project_id;
    copy.tag_ids = crate::task::copy_tags(&source.tag_ids);
    copy.sort_order = next_sort_order(tasks);
    Some(copy)
}

/// Saves the detail form of `before`: the title is
/// checked first, then the due input, then the progress input. Without a change the
/// result is `None`; otherwise the edited task, touched at `now`.
pub fn edit_from_form(
    before: &Task,
    title: &str,
    memo: &str,
    due_text: &str,
    progress_text: &str,
    now: Timestamp,
    offset: &UtcOffset,
) -> (r: Result<Option<Task>, FormError>)
    requires
        before.wf(),
        now.wf(),
        offset.wf(),
    ensures
        !title_is_valid(title@) ==> (r matches Err(FormError::Title(m)) && m@ == title_error()),
        title_is_valid(title@) && due_of_input(due_text@, *offset) is None ==> (r matches Err(FormError::Due(m))
            && m@ == due_format_error()),
        title_is_valid(title@) && due_of_input(due_text@, *offset) is Some && progress_of_text(progress_text@)
            is None ==> (r matches Err(FormError::Progress(m)) && m@ == progress_error()),
        title_is_valid(title@) && due_of_input(due_text@, *offset) is Some && progress_of_text(progress_text@)
            is Some ==> {
            let edited = TaskView {
                title: title@,
                memo: memo@,
                due: due_of_input(due_text@, *offset).unwrap(),
                progress: progress_of_text(progress_text@).unwrap(),
                ..before@
            };
            &&& edited == before@ ==> (r matches Ok(None))
            &&& edited != before@ ==> (r matches Ok(Some(t)) && t.wf() && t@ == (TaskView { updated_at: now, ..edited }))
        },
{
    let mut after = before.copy();
    if let Err(m) = after.set_title(title) {
        return Err(FormError::Title(m));
    }
    after.memo = String::from_str(memo);
    after.due = match parse_due_at(due_text, offset) {
        Ok(d) => d,
        Err(m) => return Err(FormError::Due(m)),
    };
    let progress = match parse_progress(progress_text) {
        Some(p) => p,
        None => return Err(FormError::Progress(String::from_str("進捗は0〜100の整数で入力してください"))),
    };
    let _ = after.set_progress(progress);
    if crate::task::same_task(&after, before) {
        return Ok(None);
    }
    after.touch(now);
    Ok(Some(after))
}

/// A change made to one task from the list, the detail pane or the bulk bar.
#[derive(Clone, Copy, Debug, PartialEq, Eq, Structural)]
pub enum TaskUpdate {
    Status(TaskStatus),
    Priority(Priority),
    Progress(u8),
    /// Sets the due date and touches the task (the bulk bar).
    Due(Due),
    /// Sets the due date when it differs (the detail pane).
    EditDue(Due),
    Trash,
    Restore,
}

/// `t` after `update` at `now`. A status change follows `Task::set_status` (nothing
/// when the status is already set); a progress above 100 is ignored, but the task is
/// still touched.
pub open spec fn updated(t: TaskView, update: TaskUpdate, now: Timestamp) -> TaskView {
    match update {
        TaskUpdate::Status(s) => if s == t.status {
            t
        } else {
            TaskView { status: s, progress: progress_after_status(t.status, s, t.progress), updated_at: now, ..t }
        },
        TaskUpdate::Priority(p) => TaskView { priority: p, updated_at: now, ..t },
        TaskUpdate::Progress(p) => if p <= 100 {
            TaskView { progress: p, updated_at: now, ..t }
        } else {
            TaskView { updated_at: now, ..t }
        },
        TaskUpdate::Due(d) => TaskView { due: d, updated_at: now, ..t },
        TaskUpdate::EditDue(d) => if d == t.due {
            t
        } else {
            TaskView { due: d, updated_at: now, ..t }
        },
        TaskUpdate::Trash => TaskView { deleted_at: Some(now), updated_at: now, ..t },
        TaskUpdate::Restore => TaskView { deleted_at: None, updated_at: now, ..t },
    }
}

/// An update keeps a task valid when the values it sets are valid.
pub open spec fn update_wf(update: TaskUpdate) -> bool {
    match update {
        TaskUpdate::Due(d) => d.wf(),
        TaskUpdate::EditDue(d) => d.wf(),
        _ => true,
    }
}

/// Applies `update` to `task` at `now`.
pub fn apply_update(task: &mut Task, update: TaskUpdate, now: Timestamp)
    ensures
        final(task)@ == updated(old(task)@, update, now),
        old(task).wf() && update_wf(update) && now.wf() ==> final(task).wf(),
{
    match update {
        TaskUpdate::Status(s) => task.set_status(s, now),
        TaskUpdate::Priority(p) => {
            task.priority = p;
            task.touch(now);
        },
        TaskUpdate::Progress(p) => {
            let _ = task.set_progress(p);
            task.touch(now);
        },
        TaskUpdate::Due(d) => {
            task.due = d;
            task.touch(now);
        },
        TaskUpdate::EditDue(d) => {
            if task.due != d {
                task.due = d;
                task.touch(now);
            }
        },
        TaskUpdate::Trash => task.move_to_trash(now),
        TaskUpdate::Restore => task.restore(now),
    }
}

/// The change that turns `before` into `after`.
pub open spec fn edit_change(before: TaskView, after: TaskView) -> ChangeView {
    ChangeView { before: Some(before), after: Some(after) }
}

/// Applies `update` to the first task with identifier `id` and records the change
/// whenever it does, changed or not.
pub fn change_task(tasks: &mut Vec<Task>, id: TaskId, update: TaskUpdate, now: Timestamp) -> (r: Option<TaskChange>)
    ensures
        !has_id(views(old(tasks)@), id) ==> r is None && views(final(tasks)@) == views(old(tasks)@),
        has_id(views(old(tasks)@), id) ==> {
            let tv = views(old(tasks)@);
            let i = first_index(tv, id);
            &&& views(final(tasks)@) == tv.update(i, updated(tv[i], update, now))
            &&& r matches Some(c) && c@ == edit_change(tv[i], updated(tv[i], update, now))
        },
        (forall|i: int| 0 <= i < old(tasks).len() ==> (#[trigger] old(tasks)@[i]).wf()) && update_wf(update) && now.wf()
            ==> forall|i: int| 0 <= i < final(tasks).len() ==> (#[trigger] final(tasks)@[i]).wf(),
{
    let ghost tv = views(tasks@);
    match position_of(tasks, id) {
        None => None,
        Some(i) => {
            let before = tasks[i].copy();
            let mut after = tasks[i].copy();
            apply_update(&mut after, update, now);
            let stored = after.copy();
            tasks.set(i, stored);
            proof {
                lemma_first_index_found(tv, id);
                assert(tv[i as int] == before@);
                assert(views(tasks@) =~= tv.update(i as int, after@));
            }
            Some(TaskChange { before: Some(before), after: Some(after) })
        },
    }
}

/// Applies `update` to the first task with identifier `id` and records the change,
/// unless it changes nothing.
pub fn update_task(tasks: &mut Vec<Task>, id: TaskId, update: TaskUpdate, now: Timestamp) -> (r: Option<TaskChange>)
    ensures
        !has_id(views(old(tasks)@), id) ==> r is None && views(final(tasks)@) == views(old(tasks)@),
        has_id(views(old(tasks)@), id) ==> {
            let tv = views(old(tasks)@);
            let i = first_index(tv, id);
            &&& updated(tv[i], update, now) == tv[i] ==> r is None && views(final(tasks)@) == tv
            &&& updated(tv[i], update, now) != tv[i] ==> views(final(tasks)@) == tv.update(
                i,
                updated(tv[i], update, now),
            ) && (r matches Some(c) && c@ == edit_change(tv[i], updated(tv[i], update, now)))
        },
        (forall|i: int| 0 <= i < old(tasks).len() ==> (#[trigger] old(tasks)@[i]).wf()) && update_wf(update) && now.wf()
            ==> forall|i: int| 0 <= i < final(tasks).len() ==> (#[trigger] final(tasks)@[i]).wf(),
{
    let ghost tv = views(tasks@);
    match position_of(tasks, id) {
        None => None,
        Some(i) => {
            let mut after = tasks[i].copy();
            apply_update(&mut after, update, now);
            if same_task(&after, &tasks[i]) {
                proof {
                    lemma_first_index_found(tv, id);
                    assert(tv[i as int] == tasks@[i as int]@);
                }
                return None;
            }
            let before = tasks[i].copy();
            let stored = after.copy();
            tasks.set(i, stored);
            proof {
                lemma_first_index_found(tv, id);
                assert(tv[i as int] == before@);
                assert(views(tasks@) =~= tv.update(i as int, after@));
            }
            Some(TaskChange { before: Some(before), after: Some(after) })
        },
    }
}

/// Every task whose identifier is selected, after `update`.
pub open spec fn bulk_updated(tasks: Seq<TaskView>, selected: Seq<TaskId>, update: TaskUpdate, now: Timestamp) -> Seq<TaskView> {
    tasks.map_values(|t: TaskView| if selected.contains(t.id) { updated(t, update, now) } else { t })
}

/// The changes a bulk update records: one per selected task that it changes, in
/// list order.
pub open spec fn bulk_changes(tasks: Seq<TaskView>, selected: Seq<TaskId>, update: TaskUpdate, now: Timestamp) -> Seq<
    ChangeView,
>
    decreases tasks.len(),
{
    if tasks.len() == 0 {
        Seq::empty()
    } else {
        let t = tasks.last();
        let rest = bulk_changes(tasks.drop_last(), selected, update, now);
        if selected.contains(t.id) && updated(t, update, now) != t {
            rest.push(edit_change(t, updated(t, update, now)))
        } else {
            rest
        }
    }
}

/// Applies `update` to every task whose identifier is selected and records the
/// tasks it changes.
pub fn bulk_update(tasks: &mut Vec<Task>, selected: &Vec<TaskId>, update: TaskUpdate, now: Timestamp) -> (r: Vec<TaskChange>)
    ensures
        views(final(tasks)@) == bulk_updated(views(old(tasks)@), selected@, update, now),
        change_views(r@) == bulk_changes(views(old(tasks)@), selected@, update, now),
        (forall|i: int| 0 <= i < old(tasks).len() ==> (#[trigger] old(tasks)@[i]).wf()) && update_wf(update) && now.wf()
            ==> forall|i: int| 0 <= i < final(tasks).len() ==> (#[trigger] final(tasks)@[i]).wf(),
{
    let ghost tv = views(tasks@);
    let ghost all_wf = forall|i: int| 0 <= i < tasks.len() ==> (#[trigger] tasks@[i]).wf();
    let ghost good = all_wf && update_wf(update) && now.wf();
    let mut changes: Vec<TaskChange> = Vec::new();
    let mut i: usize = 0;
    while i < tasks.len()
        invariant
            i <= tasks.len() == tv.len(),
            forall|k: int| 0 <= k < i ==> (#[trigger] views(tasks@)[k]) == bulk_updated(tv, selected@, update, now)[k],
            forall|k: int| i <= k < tasks.len() ==> (#[trigger] views(tasks@)[k]) == tv[k],
            change_views(changes@) == bulk_changes(tv.subrange(0, i as int), selected@, update, now),
            good ==> update_wf(update) && now.wf(),
            good ==> forall|k: int| 0 <= k < tasks.len() ==> (#[trigger] tasks@[k]).wf(),
        decreases tasks.len() - i,
    {
        let ghost before_views = views(tasks@);
        proof {
            assert(before_views[i as int] == tasks@[i as int]@);
            let s = tv.subrange(0, i + 1);
            assert(s.drop_last() == tv.subrange(0, i as int));
            assert(s.last() == tv[i as int]);
        }
        if contains_task_id(selected, tasks[i].id) {
            let mut after = tasks[i].copy();
            apply_update(&mut after, update, now);
            if !same_task(&after, &tasks[i]) {
                let before = tasks[i].copy();
                let stored = after.copy();
                tasks.set(i, stored);
                let ghost old_changes = changes@;
                changes.push(TaskChange { before: Some(before), after: Some(after) });
                proof {
                    assert(change_views(changes@) =~= change_views(old_changes).push(
                        edit_change(tv[i as int], updated(tv[i as int], update, now)),
                    ));
                }
            }
        }
        proof {
            assert forall|k: int| 0 <= k <= i implies (#[trigger] views(tasks@)[k]) == bulk_updated(
                tv,
                selected@,
                update,
                now,
            )[k] by {
                if k < i {
                    assert(views(tasks@)[k] == before_views[k]);
                }
            }
            assert forall|k: int| i < k < tasks.len() implies (#[trigger] views(tasks@)[k]) == tv[k] by {
                assert(views(tasks@)[k] == before_views[k]);
            }
        }
        i = i + 1;
    }
    proof {
        assert(views(tasks@) =~= bulk_updated(tv, selected@, update, now));
        assert(tv.subrange(0, tv.len() as int) == tv);
    }
    changes
}

/// Whether `id` is among `ids`.
pub fn contains_task_id(ids: &Vec<TaskId>, id: TaskId) -> (r: bool)
    ensures
        r == ids@.contains(id),
{
    let mut i: usize = 0;
    while i < ids.len()
        invariant
            i <= ids.len(),
            forall|j: int| 0 <= j < i ==> ids@[j] != id,
        decreases ids.len() - i,
    {
        if ids[i] == id {
            assert(ids@[i as int] == id);
            return true;
        }
        i = i + 1;
    }
    false
}

/// The positions of the tasks a bulk update changes, in list order.
pub open spec fn bulk_positions(tasks: Seq<TaskView>, selected: Seq<TaskId>, update: TaskUpdate, now: Timestamp) -> Seq<int>
    decreases tasks.len(),
{
    if tasks.len() == 0 {
        Seq::empty()
    } else {
        let t = tasks.last();
        let rest = bulk_positions(tasks.drop_last(), selected, update, now);
        if selected.contains(t.id) && updated(t, update, now) != t {
            rest.push(tasks.len() - 1)
        } else {
            rest
        }
    }
}

/// The task at position `k` is selected and the update changes it.
pub open spec fn bulk_changes_at(tasks: Seq<TaskView>, selected: Seq<TaskId>, update: TaskUpdate, now: Timestamp, k: int) -> bool {
    selected.contains(tasks[k].id) && updated(tasks[k], update, now) != tasks[k]
}

proof fn lemma_bulk_positions(tasks: Seq<TaskView>, selected: Seq<TaskId>, update: TaskUpdate, now: Timestamp)
    ensures
        ({
            let cs = bulk_changes(tasks, selected, update, now);
            let ps = bulk_positions(tasks, selected, update, now);
            &&& cs.len() == ps.len()
            &&& forall|j: int| 0 <= j < ps.len() ==> 0 <= #[trigger] ps[j] < tasks.len()
            &&& forall|a: int, b: int| 0 <= a < b < ps.len() ==> ps[a] < ps[b]
            &&& forall|j: int|
                0 <= j < ps.len() ==> #[trigger] cs[j] == edit_change(tasks[ps[j]], updated(tasks[ps[j]], update, now))
            &&& forall|j: int| 0 <= j < ps.len() ==> bulk_changes_at(tasks, selected, update, now, #[trigger] ps[j])
            &&& forall|k: int| 0 <= k < tasks.len() && bulk_changes_at(tasks, selected, update, now, k) ==> ps.contains(k)
        }),
    decreases tasks.len(),
{
    if tasks.len() > 0 {
        let d = tasks.drop_last();
        lemma_bulk_positions(d, selected, update, now);
        let ps = bulk_positions(tasks, selected, update, now);
        let pd = bulk_positions(d, selected, update, now);
        assert forall|k: int| 0 <= k < d.len() implies bulk_changes_at(d, selected, update, now, k)
            == bulk_changes_at(tasks, selected, update, now, k) by {
            assert(d[k] == tasks[k]);
        }
        assert forall|j: int| 0 <= j < pd.len() implies d[pd[j]] == tasks[pd[j]] by {}
        let n = tasks.len() - 1;
        assert(tasks.last() == tasks[n]);
        assert forall|k: int| 0 <= k < tasks.len() && bulk_changes_at(tasks, selected, update, now, k) implies ps.contains(k) by {
            if k < n {
                assert(bulk_changes_at(d, selected, update, now, k));
                assert(pd.contains(k));
                let j = choose|j: int| 0 <= j < pd.len() && pd[j] == k;
                if bulk_changes_at(tasks, selected, update, now, n) {
                    assert(ps == pd.push(n));
                } else {
                    assert(ps == pd);
                }
                assert(ps[j] == k);
            } else {
                assert(ps == pd.push(n));
                assert(ps[ps.len() - 1] == n);
            }
        }
    }
}

/// A bulk update can be undone: when the tasks' identifiers are unique, the changes
/// it records edit distinct tasks as they were before it, replaying them gives the
/// updated tasks, and undoing them gives back the tasks as they were.
pub proof fn lemma_bulk_update_undoable(tasks: Seq<TaskView>, selected: Seq<TaskId>, update: TaskUpdate, now: Timestamp)
    requires
        ids_unique(tasks),
    ensures
        edits_recorded_from(tasks, bulk_changes(tasks, selected, update, now)),
        apply_changes(tasks, bulk_changes(tasks, selected, update, now), true) == bulk_updated(
            tasks,
            selected,
            update,
            now,
        ),
        apply_changes(
            apply_changes(tasks, bulk_changes(tasks, selected, update, now), true),
            bulk_changes(tasks, selected, update, now),
            false,
        ) == tasks,
{
    let cs = bulk_changes(tasks, selected, update, now);
    let ps = bulk_positions(tasks, selected, update, now);
    lemma_bulk_positions(tasks, selected, update, now);
    assert forall|j: int| 0 <= j < cs.len() implies is_edit(#[trigger] cs[j]) by {
        assert(cs[j] == edit_change(tasks[ps[j]], updated(tasks[ps[j]], update, now)));
    }
    assert forall|j: int| 0 <= j < cs.len() implies change_id(#[trigger] cs[j]) == tasks[ps[j]].id by {
        assert(cs[j] == edit_change(tasks[ps[j]], updated(tasks[ps[j]], update, now)));
    }
    assert forall|j: int| 0 <= j < cs.len() implies has_id(tasks, change_id(#[trigger] cs[j])) by {
        assert(0 <= ps[j] < tasks.len() && tasks[ps[j]].id == change_id(cs[j]));
    }
    assert forall|a: int, b: int| 0 <= a < cs.len() && 0 <= b < cs.len() && a != b implies change_id(cs[a])
        != change_id(cs[b]) by {
        assert(change_id(cs[a]) == tasks[ps[a]].id);
        assert(change_id(cs[b]) == tasks[ps[b]].id);
        assert(ps[a] != ps[b]);
        assert(0 <= ps[a] < tasks.len());
        assert(0 <= ps[b] < tasks.len());
    }
    assert forall|k: int| 0 <= k < tasks.len() && has_change(cs, #[trigger] tasks[k].id) implies tasks[k]
        == cs[change_for(cs, tasks[k].id)].before.unwrap() by {
        let j = change_for(cs, tasks[k].id);
        assert(0 <= j < cs.len() && change_id(cs[j]) == tasks[k].id);
        assert(change_id(cs[j]) == tasks[ps[j]].id);
        assert(0 <= ps[j] < tasks.len());
        assert(ps[j] == k);
        assert(cs[j] == edit_change(tasks[ps[j]], updated(tasks[ps[j]], update, now)));
    }
    assert(edits_recorded_from(tasks, cs));
    lemma_undo_restores_edits(tasks, cs);
    lemma_apply_edits(tasks, cs, true);
    reveal(edits_applied);
    let e = edits_applied(tasks, cs, true);
    let b = bulk_updated(tasks, selected, update, now);
    assert forall|k: int| 0 <= k < tasks.len() implies e[k] == b[k] by {
        if has_change(cs, tasks[k].id) {
            let j = change_for(cs, tasks[k].id);
            assert(0 <= j < cs.len() && change_id(cs[j]) == tasks[k].id);
            assert(change_id(cs[j]) == tasks[ps[j]].id);
            assert(0 <= ps[j] < tasks.len());
            assert(ps[j] == k);
            assert(cs[j] == edit_change(tasks[ps[j]], updated(tasks[ps[j]], update, now)));
            assert(bulk_changes_at(tasks, selected, update, now, ps[j]));
        } else if bulk_changes_at(tasks, selected, update, now, k) {
            assert(ps.contains(k));
            let j = choose|j: int| 0 <= j < ps.len() && ps[j] == k;
            assert(change_id(cs[j]) == tasks[ps[j]].id);
            assert(has_change(cs, tasks[k].id));
        }
    }
    assert(e =~= b);
}

/// `tasks` with the title of the first task with identifier `id` replaced, touched at
/// `now` (nothing when no task has it).
pub open spec fn with_title(tasks: Seq<TaskView>, id: TaskId, title: Seq<char>, now: Timestamp) -> Seq<TaskView> {
    if has_id(tasks, id) {
        let i = first_index(tasks, id);
        tasks.update(i, TaskView { title, updated_at: now, ..tasks[i] })
    } else {
        tasks
    }
}

/// `tasks` with the memo of the first task with identifier `id` replaced, touched at
/// `now` (nothing when no task has it).
pub open spec fn with_memo(tasks: Seq<TaskView>, id: TaskId, memo: Seq<char>, now: Timestamp) -> Seq<TaskView> {
    if has_id(tasks, id) {
        let i = first_index(tasks, id);
        tasks.update(i, TaskView { memo, updated_at: now, ..tasks[i] })
    } else {
        tasks
    }
}

/// The pending title edit names a task of `tasks` and its title is not valid.
pub open spec fn pending_title_invalid(tasks: Seq<TaskView>, pending_title: Option<(TaskId, Seq<char>)>) -> bool {
    pending_title matches Some(p) && has_id(tasks, p.0) && !title_is_valid(p.1)
}

/// `tasks` after the pending title edit and then the pending memo edit.
pub open spec fn pending_applied(
    tasks: Seq<TaskView>,
    pending_title: Option<(TaskId, Seq<char>)>,
    pending_memo: Option<(TaskId, Seq<char>)>,
    now: Timestamp,
) -> Seq<TaskView> {
    let t1 = match pending_title {
        Some(p) => with_title(tasks, p.0, p.1, now),
        None => tasks,
    };
    match pending_memo {
        Some(p) => with_memo(t1, p.0, p.1, now),
        None => t1,
    }
}

pub open spec fn pending_view(p: Option<&(TaskId, String)>) -> Option<(TaskId, Seq<char>)> {
    match p {
        Some(x) => Some((x.0, x.1@)),
        None => None,
    }
}

proof fn lemma_same_ids_after_update(tasks: Seq<TaskView>, i: int, t: TaskView, id: TaskId)
    requires
        0 <= i < tasks.len(),
        t.id == tasks[i].id,
    ensures
        has_id(tasks.update(i, t), id) == has_id(tasks, id),
        has_id(tasks, id) ==> first_index(tasks.update(i, t), id) == first_index(tasks, id),
{
    let u = tasks.update(i, t);
    if has_id(tasks, id) {
        lemma_first_index_found(tasks, id);
        let k = first_index(tasks, id);
        assert(u[k].id == id);
        assert(has_id(u, id));
        lemma_first_index_found(u, id);
        let k2 = first_index(u, id);
        if k2 < k {
            assert(u[k2].id == tasks[k2].id);
        } else if k < k2 {
            assert(u[k].id == id);
        }
    }
    if has_id(u, id) {
        let k = choose|k: int| 0 <= k < u.len() && u[k].id == id;
        assert(tasks[k].id == id);
    }
}

/// Applies the autosaved title and memo edits to `tasks` at `now`.
/// An invalid title stops everything, with the title
/// message, before anything changes; otherwise the result says whether a task was
/// edited.
pub fn apply_pending_edits(
    tasks: &mut Vec<Task>,
    pending_title: Option<&(TaskId, String)>,
    pending_memo: Option<&(TaskId, String)>,
    now: Timestamp,
) -> (r: Result<bool, String>)
    ensures
        pending_title_invalid(views(old(tasks)@), pending_view(pending_title)) ==> (r matches Err(m) && m@
            == title_error()) && views(final(tasks)@) == views(old(tasks)@),
        !pending_title_invalid(views(old(tasks)@), pending_view(pending_title)) ==> {
            &&& views(final(tasks)@) == pending_applied(
                views(old(tasks)@),
                pending_view(pending_title),
                pending_view(pending_memo),
                now,
            )
            &&& r == Ok::<bool, String>(
                (pending_title matches Some(p) && has_id(views(old(tasks)@), p.0)) || (pending_memo matches Some(
                    p,
                ) && has_id(views(old(tasks)@), p.0)),
            )
        },
        (forall|i: int| 0 <= i < old(tasks).len() ==> (#[trigger] old(tasks)@[i]).wf()) && now.wf() ==> forall|
            i: int,
        | 0 <= i < final(tasks).len() ==> (#[trigger] final(tasks)@[i]).wf(),
{
    let ghost tv = views(tasks@);
    let mut changed = false;
    if let Some(p) = pending_title {
        if let Some(i) = position_of(tasks, p.0) {
            let mut t = tasks[i].copy();
            if let Err(m) = t.set_title(p.1.as_str()) {
                proof {
                    lemma_first_index_found(tv, p.0);
                }
                return Err(m);
            }
            t.touch(now);
            let ghost tt = t@;
            tasks.set(i, t);
            proof {
                lemma_first_index_found(tv, p.0);
                assert(views(tasks@) =~= with_title(tv, p.0, p.1@, now));
                lemma_same_ids_after_update(tv, i as int, tt, p.0);
            }
            changed = true;
        }
    }
    let ghost t1 = views(tasks@);
    proof {
        if let Some(q) = pending_memo {
            if let Some(p) = pending_title {
                if has_id(tv, p.0) {
                    lemma_first_index_found(tv, p.0);
                    let i = first_index(tv, p.0);
                    lemma_same_ids_after_update(tv, i, t1[i], q.0);
                }
            }
        }
    }
    if let Some(p) = pending_memo {
        if let Some(i) = position_of(tasks, p.0) {
            let mut t = tasks[i].copy();
            t.memo = p.1.clone();
            t.touch(now);
            tasks.set(i, t);
            proof {
                lemma_first_index_found(t1, p.0);
                assert(views(tasks@) =~= with_memo(t1, p.0, p.1@, now));
            }
            changed = true;
        }
    }
    Ok(changed)
}

/// The changes between two versions of the task list, position by position over the
/// first `n` positions: one for each position whose task differs.
pub open spec fn zip_changes(before: Seq<TaskView>, after: Seq<TaskView>, n: int) -> Seq<ChangeView>
    decreases n,
{
    if n <= 0 {
        Seq::empty()
    } else {
        let rest = zip_changes(before, after, n - 1);
        if before[n - 1] != after[n - 1] {
            rest.push(edit_change(before[n - 1], after[n - 1]))
        } else {
            rest
        }
    }
}

/// The changes from `before` to `after`, pairing tasks by position (`zip` of the two
/// lists, keeping the pairs that differ).
pub fn changes_between(before: &Vec<Task>, after: &Vec<Task>) -> (r: Vec<TaskChange>)
    ensures
        change_views(r@) == zip_changes(
            views(before@),
            views(after@),
            if before.len() <= after.len() {
                before.len() as int
            } else {
                after.len() as int
            },
        ),
{
    let n = if before.len() <= after.len() {
        before.len()
    } else {
        after.len()
    };
    let ghost bv = views(before@);
    let ghost av = views(after@);
    let mut out: Vec<TaskChange> = Vec::new();
    let mut k: usize = 0;
    while k < n
        invariant
            k <= n <= before.len(),
            n <= after.len(),
            bv == views(before@),
            av == views(after@),
            change_views(out@) == zip_changes(bv, av, k as int),
        decreases n - k,
    {
        proof {
            assert(bv[k as int] == before@[k as int]@);
            assert(av[k as int] == after@[k as int]@);
        }
        if !same_task(&before[k], &after[k]) {
            let ghost old_out = out@;
            out.push(TaskChange { before: Some(before[k].copy()), after: Some(after[k].copy()) });
            proof {
                assert(change_views(out@) =~= change_views(old_out).push(edit_change(bv[k as int], av[k as int])));
            }
        }
        k = k + 1;
    }
    out
}

/// `tasks` with the manual ranks at positions `l` and `k` exchanged.
pub open spec fn ranks_swapped(tasks: Seq<TaskView>, l: int, k: int) -> Seq<TaskView> {
    tasks.update(l, TaskView { sort_order: tasks[k].sort_order, ..tasks[l] }).update(
        k,
        TaskView { sort_order: tasks[l].sort_order, ..tasks[k] },
    )
}

/// The two changes of a rank exchange between positions `l` and `k`.
pub open spec fn swap_changes(tasks: Seq<TaskView>, l: int, k: int) -> Seq<ChangeView> {
    seq![
        edit_change(tasks[l], TaskView { sort_order: tasks[k].sort_order, ..tasks[l] }),
        edit_change(tasks[k], TaskView { sort_order: tasks[l].sort_order, ..tasks[k] }),
    ]
}

/// Swaps the manual ranks of the tasks `dragged` and `target` and records both
/// changes. Nothing happens when they are the same task or
/// either is missing.
pub fn swap_sort_orders(tasks: &mut Vec<Task>, dragged: TaskId, target: TaskId) -> (r: Option<Vec<TaskChange>>)
    ensures
        dragged == target || !has_id(views(old(tasks)@), dragged) || !has_id(views(old(tasks)@), target) ==> r is None
            && views(final(tasks)@) == views(old(tasks)@),
        dragged != target && has_id(views(old(tasks)@), dragged) && has_id(views(old(tasks)@), target) ==> views(
            final(tasks)@,
        ) == ranks_swapped(
            views(old(tasks)@),
            first_index(views(old(tasks)@), dragged),
            first_index(views(old(tasks)@), target),
        ) && (r matches Some(cs) && change_views(cs@) == swap_changes(
            views(old(tasks)@),
            first_index(views(old(tasks)@), dragged),
            first_index(views(old(tasks)@), target),
        )),
        (forall|i: int| 0 <= i < old(tasks).len() ==> (#[trigger] old(tasks)@[i]).wf()) ==> forall|i: int|
            0 <= i < final(tasks).len() ==> (#[trigger] final(tasks)@[i]).wf(),
{
    let ghost tv = views(tasks@);
    if dragged == target {
        return None;
    }
    let l = match position_of(tasks, dragged) {
        Some(i) => i,
        None => return None,
    };
    let k = match position_of(tasks, target) {
        Some(i) => i,
        None => return None,
    };
    let before_l = tasks[l].copy();
    let before_k = tasks[k].copy();
    let mut after_l = tasks[l].copy();
    after_l.sort_order = before_k.sort_order;
    let mut after_k = tasks[k].copy();
    after_k.sort_order = before_l.sort_order;
    let ghost nl = after_l@;
    let ghost nk = after_k@;
    proof {
        assert(tv[l as int] == before_l@);
        assert(tv[k as int] == before_k@);
    }
    let stored_l = after_l.copy();
    tasks.set(l, stored_l);
    let ghost mid = views(tasks@);
    proof {
        assert(mid =~= tv.update(l as int, nl));
    }
    let stored_k = after_k.copy();
    tasks.set(k, stored_k);
    proof {
        assert(views(tasks@) =~= mid.update(k as int, nk));
    }
    let mut changes: Vec<TaskChange> = Vec::new();
    changes.push(TaskChange { before: Some(before_l), after: Some(after_l) });
    changes.push(TaskChange { before: Some(before_k), after: Some(after_k) });
    proof {
        assert(change_views(changes@) =~= swap_changes(tv, l as int, k as int));
    }
    Some(changes)
}

/// A rank exchange can be undone: when the tasks' identifiers are unique and
/// `dragged` and `target` are two of them, the two recorded changes edit distinct
/// tasks as they were, and undoing them gives back the tasks as they were.
pub proof fn lemma_swap_undoable(tasks: Seq<TaskView>, dragged: TaskId, target: TaskId)
    requires
        ids_unique(tasks),
        dragged != target,
        has_id(tasks, dragged),
        has_id(tasks, target),
    ensures
        ({
            let l = first_index(tasks, dragged);
            let k = first_index(tasks, target);
            &&& edits_recorded_from(tasks, swap_changes(tasks, l, k))
            &&& apply_changes(apply_changes(tasks, swap_changes(tasks, l, k), true), swap_changes(tasks, l, k), false)
                == tasks
        }),
{
    lemma_first_index_found(tasks, dragged);
    lemma_first_index_found(tasks, target);
    let l = first_index(tasks, dragged);
    let k = first_index(tasks, target);
    let cs = swap_changes(tasks, l, k);
    assert(change_id(cs[0]) == dragged);
    assert(change_id(cs[1]) == target);
    assert forall|j: int| 0 <= j < cs.len() implies is_edit(#[trigger] cs[j]) by {}
    assert forall|j: int| 0 <= j < cs.len() implies has_id(tasks, change_id(#[trigger] cs[j])) by {}
    assert forall|a: int, b: int| 0 <= a < cs.len() && 0 <= b < cs.len() && a != b implies change_id(cs[a])
        != change_id(cs[b]) by {}
    assert forall|q: int| 0 <= q < tasks.len() && has_change(cs, #[trigger] tasks[q].id) implies tasks[q]
        == cs[change_for(cs, tasks[q].id)].before.unwrap() by {
        let j = change_for(cs, tasks[q].id);
        assert(0 <= j < cs.len() && change_id(cs[j]) == tasks[q].id);
        if j == 0 {
            assert(tasks[l].id == tasks[q].id);
            assert(q == l);
        } else {
            assert(tasks[k].id == tasks[q].id);
            assert(q == k);
        }
    }
    lemma_undo_restores_edits(tasks, cs);
}

/// How long a task stays in the trash: 30 days, in nanoseconds.
pub const TRASH_RETENTION_NANOS: i128 = 2_592_000_000_000_000;

/// A task in the trash since at least 30 days before `now`.
pub open spec fn is_expired(t: TaskView, now: Timestamp) -> bool {
    t.deleted_at matches Some(d) && d.nanos <= now.nanos - TRASH_RETENTION_NANOS
}

/// Trash expires after thirty days: a task deleted at least thirty days (of
/// 86,400 seconds) before `now` is expired, one deleted later is not, and a task
/// that is not in the trash never is.
pub proof fn lemma_trash_expiry(t: TaskView, now: Timestamp)
    ensures
        t.deleted_at is None ==> !is_expired(t, now),
        t.deleted_at matches Some(d) ==> (is_expired(t, now) <==> now.nanos - d.nanos >= 30 * 86_400 * 1_000_000_000),
{
}

/// The identifiers of the expired trash of `tasks`, in list order.
pub open spec fn expired_ids(tasks: Seq<TaskView>, now: Timestamp) -> Seq<TaskId> {
    tasks.filter(|t: TaskView| is_expired(t, now)).map_values(|t: TaskView| t.id)
}

/// Removes the tasks that have been in the trash for 30 days at `now`, with every
/// task that shares an identifier with one of them, and returns their identifiers.
pub fn remove_expired_trash(tasks: &mut Vec<Task>, now: Timestamp) -> (r: Vec<TaskId>)
    requires
        now.wf(),
    ensures
        r@ == expired_ids(views(old(tasks)@), now),
        views(final(tasks)@) == views(old(tasks)@).filter(|t: TaskView| !r@.contains(t.id)),
        (forall|i: int| 0 <= i < old(tasks).len() ==> (#[trigger] old(tasks)@[i]).wf()) ==> forall|i: int|
            0 <= i < final(tasks).len() ==> (#[trigger] final(tasks)@[i]).wf(),
{
    let ghost tv = views(tasks@);
    let ghost ep = |t: TaskView| is_expired(t, now);
    let cutoff: i128 = now.nanos - TRASH_RETENTION_NANOS;
    let mut ids: Vec<TaskId> = Vec::new();
    let mut i: usize = 0;
    while i < tasks.len()
        invariant
            i <= tasks.len(),
            tv == views(tasks@),
            cutoff == now.nanos - TRASH_RETENTION_NANOS,
            ep == (|t: TaskView| is_expired(t, now)),
            ids@ == tv.subrange(0, i as int).filter(ep).map_values(|t: TaskView| t.id),
        decreases tasks.len() - i,
    {
        let ghost v = tasks@[i as int]@;
        proof {
            assert(tv[i as int] == v);
            assert(tv.subrange(0, i + 1) == tv.subrange(0, i as int).push(v));
            lemma_filter_push(tv.subrange(0, i as int), ep, v);
        }
        let expired = match tasks[i].deleted_at {
            Some(d) => d.nanos <= cutoff,
            None => false,
        };
        if expired {
            let ghost before = ids@;
            ids.push(tasks[i].id);
            proof {
                assert(ids@ =~= before.push(v.id));
                assert(tv.subrange(0, i as int).filter(ep).push(v).map_values(|t: TaskView| t.id) =~= before.push(
                    v.id,
                ));
            }
        }
        i = i + 1;
    }
    proof {
        assert(tv.subrange(0, tv.len() as int) == tv);
    }
    let ghost keep = |t: TaskView| !ids@.contains(t.id);
    let ghost all_wf = forall|j: int| 0 <= j < tasks.len() ==> (#[trigger] tasks@[j]).wf();
    let mut kept: Vec<Task> = Vec::new();
    let mut j: usize = 0;
    while j < tasks.len()
        invariant
            j <= tasks.len(),
            tv == views(tasks@),
            keep == (|t: TaskView| !ids@.contains(t.id)),
            views(kept@) == tv.subrange(0, j as int).filter(keep),
            all_wf == (forall|q: int| 0 <= q < tasks.len() ==> (#[trigger] tasks@[q]).wf()),
            all_wf ==> forall|q: int| 0 <= q < kept.len() ==> (#[trigger] kept@[q]).wf(),
        decreases tasks.len() - j,
    {
        let ghost v = tasks@[j as int]@;
        proof {
            assert(tv[j as int] == v);
            assert(tv.subrange(0, j + 1) == tv.subrange(0, j as int).push(v));
            lemma_filter_push(tv.subrange(0, j as int), keep, v);
        }
        if !contains_task_id(&ids, tasks[j].id) {
            let ghost before = kept@;
            kept.push(tasks[j].copy());
            proof {
                assert(views(kept@) =~= views(before).push(v));
            }
        }
        j = j + 1;
    }
    proof {
        assert(tv.subrange(0, tv.len() as int) == tv);
    }
    *tasks = kept;
    ids
}

/// Removes every task in the trash (emptying the trash after it was confirmed).
pub fn remove_trashed(tasks: &mut Vec<Task>)
    ensures
        views(final(tasks)@) == views(old(tasks)@).filter(|t: TaskView| t.deleted_at is None),
        (forall|i: int| 0 <= i < old(tasks).len() ==> (#[trigger] old(tasks)@[i]).wf()) ==> forall|i: int|
            0 <= i < final(tasks).len() ==> (#[trigger] final(tasks)@[i]).wf(),
{
    let ghost tv = views(tasks@);
    let ghost keep = |t: TaskView| t.deleted_at is None;
    let ghost all_wf = forall|j: int| 0 <= j < tasks.len() ==> (#[trigger] tasks@[j]).wf();
    let mut kept: Vec<Task> = Vec::new();
    let mut j: usize = 0;
    while j < tasks.len()
        invariant
            j <= tasks.len(),
            tv == views(tasks@),
            keep == (|t: TaskView| t.deleted_at is None),
            views(kept@) == tv.subrange(0, j as int).filter(keep),
            all_wf == (forall|q: int| 0 <= q < tasks.len() ==> (#[trigger] tasks@[q]).wf()),
            all_wf ==> forall|q: int| 0 <= q < kept.len() ==> (#[trigger] kept@[q]).wf(),
        decreases tasks.len() - j,
    {
        let ghost v = tasks@[j as int]@;
        proof {
            assert(tv[j as int] == v);
            assert(tv.subrange(0, j + 1) == tv.subrange(0, j as int).push(v));
            lemma_filter_push(tv.subrange(0, j as int), keep, v);
        }
        if tasks[j].deleted_at.is_none() {
            let ghost before = kept@;
            kept.push(tasks[j].copy());
            proof {
                assert(views(kept@) =~= views(before).push(v));
            }
        }
        j = j + 1;
    }
    proof {
        assert(tv.subrange(0, tv.len() as int) == tv);
    }
    *tasks = kept;
}

/// `{n}件を一括更新しました`.
pub fn bulk_updated_message(n: usize) -> (r: String)
    ensures
        r@ == decimal(n as nat) + "件を一括更新しました"@,
{
    let digits = decimal_chars(n as u64);
    let mut s = string_of(&digits);
    append_str(&mut s, "件を一括更新しました");
    s
}

/// `期限切れのゴミ箱タスクを{n}件削除しました`.
pub fn purged_message(n: usize) -> (r: String)
    ensures
        r@ == "期限切れのゴミ箱タスクを"@ + decimal(n as nat) + "件削除しました"@,
{
    let mut s = String::from_str("期限切れのゴミ箱タスクを");
    let digits = decimal_chars(n as u64);
    append_chars(&mut s, &digits);
    append_str(&mut s, "件削除しました");
    s
}

/// The status shown after a failed save: `読み取り専用` when the store is read
/// only, `保存失敗` otherwise.
pub fn save_failure_status(read_only: bool) -> (r: String)
    ensures
        read_only ==> r@ == "読み取り専用"@,
        !read_only ==> r@ == "保存失敗"@,
{
    if read_only {
        String::from_str("読み取り専用")
    } else {
        String::from_str("保存失敗")
    }
}

/// A pending edit held by value, as plain values.
pub open spec fn pending_of(p: Option<(TaskId, String)>) -> Option<(TaskId, Seq<char>)> {
    match p {
        Some(x) => Some((x.0, x.1@)),
        None => None,
    }
}

/// `tasks` after `update` is applied to the first task with identifier `id`, if any.
pub open spec fn task_updated(tasks: Seq<TaskView>, id: TaskId, update: TaskUpdate, now: Timestamp) -> Seq<TaskView> {
    if has_id(tasks, id) {
        tasks.update(first_index(tasks, id), updated(tasks[first_index(tasks, id)], update, now))
    } else {
        tasks
    }
}

/// Moving the task `id` to the trash from the list. The pending title and memo edits
/// are saved first; while the pending title is invalid nothing happens, the edits
/// stay pending and the title message is returned. Otherwise the pending edits are
/// applied and cleared, the task goes to the trash, the detail pane closes when it
/// showed that task, and the trash change is returned when there was one.
pub fn trash_after_pending_edits(
    tasks: &mut Vec<Task>,
    open: &mut Option<TaskId>,
    pending_title: &mut Option<(TaskId, String)>,
    pending_memo: &mut Option<(TaskId, String)>,
    id: TaskId,
    now: Timestamp,
) -> (r: Result<Option<TaskChange>, String>)
    ensures
        pending_title_invalid(views(old(tasks)@), pending_of(*old(pending_title))) ==> {
            &&& r matches Err(m) && m@ == title_error()
            &&& views(final(tasks)@) == views(old(tasks)@)
            &&& *final(open) == *old(open)
            &&& *final(pending_title) == *old(pending_title)
            &&& *final(pending_memo) == *old(pending_memo)
        },
        !pending_title_invalid(views(old(tasks)@), pending_of(*old(pending_title))) ==> {
            &&& r is Ok
            &&& views(final(tasks)@) == task_updated(
                pending_applied(
                    views(old(tasks)@),
                    pending_of(*old(pending_title)),
                    pending_of(*old(pending_memo)),
                    now,
                ),
                id,
                TaskUpdate::Trash,
                now,
            )
            &&& *final(open) == if *old(open) == Some(id) { None } else { *old(open) }
            &&& *final(pending_title) is None
            &&& *final(pending_memo) is None
        },
{
    let title_ref = pending_title.as_ref();
    let memo_ref = pending_memo.as_ref();
    assert(pending_view(title_ref) == pending_of(*pending_title));
    assert(pending_view(memo_ref) == pending_of(*pending_memo));
    match apply_pending_edits(tasks, title_ref, memo_ref, now) {
        Err(m) => return Err(m),
        Ok(_) => {},
    }
    *pending_title = None;
    *pending_memo = None;
    let ghost mid = views(tasks@);
    let change = update_task(tasks, id, TaskUpdate::Trash, now);
    proof {
        if has_id(mid, id) {
            lemma_first_index_found(mid, id);
            let i = first_index(mid, id);
            if updated(mid[i], TaskUpdate::Trash, now) == mid[i] {
                assert(mid.update(i, mid[i]) =~= mid);
            }
        }
    }
    if *open == Some(id) {
        *open = None;
    }
    Ok(change)
}

/// The status line and error message after each refresh of the window: an error
/// that storage reported replaces the error message and the status becomes
/// `保存失敗`; otherwise a pending `保存中…` becomes `保存済み` and every other status
/// stays. The error message stays when storage reported none.
pub fn refreshed_status(status: String, error: Option<String>, storage_error: Option<String>) -> (r: (
    String,
    Option<String>,
))
    ensures
        storage_error matches Some(e) ==> r.0@ == "保存失敗"@ && r.1 == Some(e),
        storage_error is None && status@ == "保存中…"@ ==> r.0@ == "保存済み"@ && r.1 == error,
        storage_error is None && status@ != "保存中…"@ ==> r.0 == status && r.1 == error,
{
    match storage_error {
        Some(e) => (String::from_str("保存失敗"), Some(e)),
        None => {
            if same_text(status.as_str(), "保存中…") {
                (String::from_str("保存済み"), error)
            } else {
                (status, error)
            }
        },
    }
}

/// The texts the detail pane shows for a task: its title, memo, due input and
/// progress.
#[derive(Clone, Debug)]
pub struct DetailInputs {
    pub title: String,
    pub memo: String,
    pub due: String,
    pub progress: String,
}

/// The detail pane's inputs for `task` at `offset`. Saving them
/// unedited reads back the task's own due date (when it falls on a whole minute) and
/// progress, so nothing changes.
pub fn detail_inputs(task: &Task, offset: &UtcOffset) -> (r: DetailInputs)
    requires
        task.wf(),
        offset.wf(),
    ensures
        r.title@ == task.title@,
        r.memo@ == task.memo@,
        r.due@ == crate::due::due_input_value(task.due, *offset),
        r.progress@ == decimal(task.progress as nat),
        crate::roundtrip::shown_exactly(task.due, *offset) ==> due_of_input(r.due@, *offset) == Some(task.due),
        progress_of_text(r.progress@) == Some(task.progress),
{
    let digits = decimal_chars(task.progress as u64);
    proof {
        crate::roundtrip::lemma_progress_round_trip(task.progress);
    }
    DetailInputs {
        title: task.title.clone(),
        memo: task.memo.clone(),
        due: crate::due::format_due_input_at(&task.due, offset),
        progress: string_of(&digits),
    }
}

} // verus!
