//! Undo and redo: recorded task changes, how they are applied in either direction,
//! and the two history stacks.
use vstd::prelude::*;

use crate::catalog::{
    Project, ProjectChange, Tag, TagChange, apply_project_changes, apply_project_changes_to,
    apply_tag_changes, apply_tag_changes_to, project_deletes, project_saves, project_store_lists,
    tag_deletes, tag_saves, tag_store_lists,
};
use crate::ids::{ProjectId, TagId, TaskId};
use crate::sorting::views;
use crate::task::{Task, TaskView};

use crate::seqs::{lemma_filter_keeps_all, lemma_filter_push};

verus! {

/// Most entries kept on the undo stack.
pub const HISTORY_LIMIT: usize = 50;

/// One task before and after a change: `None` before for a creation, `None` after
/// for a removal.
#[derive(Debug)]
pub struct TaskChange {
    pub before: Option<Task>,
    pub after: Option<Task>,
}

/// The changes made by one user action, to tasks, projects and tags.
#[derive(Debug)]
pub struct HistoryEntry {
    pub task_changes: Vec<TaskChange>,
    pub project_changes: Vec<ProjectChange>,
    pub tag_changes: Vec<TagChange>,
}

pub struct ChangeView {
    pub before: Option<TaskView>,
    pub after: Option<TaskView>,
}

pub open spec fn option_view(t: Option<Task>) -> Option<TaskView> {
    match t {
        Some(x) => Some(x@),
        None => None,
    }
}

impl View for TaskChange {
    type V = ChangeView;

    open spec fn view(&self) -> ChangeView {
        ChangeView { before: option_view(self.before), after: option_view(self.after) }
    }
}

pub open spec fn change_views(cs: Seq<TaskChange>) -> Seq<ChangeView> {
    cs.map_values(|c: TaskChange| c@)
}

impl HistoryEntry {
    pub open spec fn changes(self) -> Seq<ChangeView> {
        change_views(self.task_changes@)
    }

    /// An entry that records task changes only.
    pub fn tasks(changes: Vec<TaskChange>) -> (r: HistoryEntry)
        ensures
            r.task_changes@ == changes@,
            r.project_changes@.len() == 0,
            r.tag_changes@.len() == 0,
    {
        HistoryEntry { task_changes: changes, project_changes: Vec::new(), tag_changes: Vec::new() }
    }

    /// Every recorded change names its task, project or tag on at least one side.
    pub open spec fn well_formed(self) -> bool {
        &&& forall|i: int| 0 <= i < self.changes().len() ==> change_wf(#[trigger] self.changes()[i])
        &&& forall|i: int|
            0 <= i < self.project_changes@.len() ==> (#[trigger] self.project_changes@[i]).before is Some
                || self.project_changes@[i].after is Some
        &&& forall|i: int|
            0 <= i < self.tag_changes@.len() ==> (#[trigger] self.tag_changes@[i]).before is Some
                || self.tag_changes@[i].after is Some
    }
}

/// A change names a task on at least one side.
pub open spec fn change_wf(c: ChangeView) -> bool {
    c.before is Some || c.after is Some
}

/// The task a change is about.
pub open spec fn change_id(c: ChangeView) -> TaskId {
    match c.before {
        Some(t) => t.id,
        None => c.after.unwrap().id,
    }
}

/// The side of a change that is restored.
pub open spec fn change_state(c: ChangeView, use_after: bool) -> Option<TaskView> {
    if use_after {
        c.after
    } else {
        c.before
    }
}

/// Some task of `tasks` has identifier `id`.
pub open spec fn has_id(tasks: Seq<TaskView>, id: TaskId) -> bool {
    exists|i: int| 0 <= i < tasks.len() && tasks[i].id == id
}

/// Position of the first task with identifier `id`.
#[verifier::opaque]
pub open spec fn first_index(tasks: Seq<TaskView>, id: TaskId) -> int {
    choose|i: int| 0 <= i < tasks.len() && tasks[i].id == id && forall|j: int| 0 <= j < i ==> tasks[j].id != id
}

/// `tasks` with one change restored: the first task with the change's identifier
/// replaced by the restored side (or that side appended when absent), or every task
/// with that identifier removed when the restored side is none.
#[verifier::opaque]
pub open spec fn apply_change(tasks: Seq<TaskView>, c: ChangeView, use_after: bool) -> Seq<TaskView> {
    let id = change_id(c);
    match change_state(c, use_after) {
        Some(t) => if has_id(tasks, id) {
            tasks.update(first_index(tasks, id), t)
        } else {
            tasks.push(t)
        },
        None => tasks.filter(|x: TaskView| x.id != id),
    }
}

/// `tasks` with all changes restored in order.
pub open spec fn apply_changes(tasks: Seq<TaskView>, cs: Seq<ChangeView>, use_after: bool) -> Seq<TaskView>
    decreases cs.len(),
{
    if cs.len() == 0 {
        tasks
    } else {
        apply_changes(apply_change(tasks, cs[0], use_after), cs.drop_first(), use_after)
    }
}

proof fn lemma_first_index(tasks: Seq<TaskView>, id: TaskId, i: int)
    requires
        0 <= i < tasks.len(),
        tasks[i].id == id,
        forall|j: int| 0 <= j < i ==> tasks[j].id != id,
    ensures
        first_index(tasks, id) == i,
{
    reveal(first_index);
    let k = first_index(tasks, id);
    assert(0 <= k < tasks.len() && tasks[k].id == id && forall|j: int| 0 <= j < k ==> tasks[j].id != id) by {
        assert(0 <= i < tasks.len() && tasks[i].id == id && forall|j: int| 0 <= j < i ==> tasks[j].id != id);
    }
    if k < i {
        assert(tasks[k].id != id);
    } else if k > i {
        assert(tasks[i].id != id);
    }
}

/// When some task has identifier `id`, there is a first one, and `first_index` finds it.
pub proof fn lemma_first_index_found(tasks: Seq<TaskView>, id: TaskId)
    requires
        has_id(tasks, id),
    ensures
        0 <= first_index(tasks, id) < tasks.len(),
        tasks[first_index(tasks, id)].id == id,
        forall|j: int| 0 <= j < first_index(tasks, id) ==> tasks[j].id != id,
{
    reveal(first_index);
    let i = choose|i: int| 0 <= i < tasks.len() && tasks[i].id == id;
    lemma_first_at_or_before(tasks, id, i);
}

proof fn lemma_first_at_or_before(tasks: Seq<TaskView>, id: TaskId, i: int)
    requires
        0 <= i < tasks.len(),
        tasks[i].id == id,
    ensures
        exists|k: int| 0 <= k < tasks.len() && tasks[k].id == id && forall|j: int| 0 <= j < k ==> tasks[j].id != id,
    decreases i,
{
    if exists|j: int| 0 <= j < i && tasks[j].id == id {
        let j = choose|j: int| 0 <= j < i && tasks[j].id == id;
        lemma_first_at_or_before(tasks, id, j);
    } else {
        assert(forall|j: int| 0 <= j < i ==> tasks[j].id != id);
    }
}

fn find_task(tasks: &Vec<Task>, id: TaskId) -> (r: Option<usize>)
    ensures
        r is None <==> !has_id(views(tasks@), id),
        r matches Some(i) ==> i < tasks.len() && i == first_index(views(tasks@), id),
{
    let ghost tv = views(tasks@);
    let mut i: usize = 0;
    while i < tasks.len()
        invariant
            i <= tasks.len(),
            tv == views(tasks@),
            forall|j: int| 0 <= j < i ==> tv[j].id != id,
        decreases tasks.len() - i,
    {
        if tasks[i].id == id {
            proof {
                assert(tv[i as int].id == id);
                lemma_first_index(tv, id, i as int);
            }
            return Some(i);
        }
        i = i + 1;
    }
    proof {
        if has_id(tv, id) {
            let k = choose|k: int| 0 <= k < tv.len() && tv[k].id == id;
            assert(tv[k].id != id);
        }
    }
    None
}

/// The position of the first task with identifier `id`, if any.
pub fn position_of(tasks: &Vec<Task>, id: TaskId) -> (r: Option<usize>)
    ensures
        r is None <==> !has_id(views(tasks@), id),
        r matches Some(i) ==> i < tasks.len() && i == first_index(views(tasks@), id) && tasks@[i as int].id
            == id,
{
    let r = find_task(tasks, id);
    proof {
        if let Some(i) = r {
            let tv = views(tasks@);
            lemma_first_index_found(tv, id);
            assert(tv[i as int] == tasks@[i as int]@);
        }
    }
    r
}

/// Removes every task with identifier `id` (`retain(|task| task.id != id)`).
pub fn remove_tasks_with_id(tasks: &mut Vec<Task>, id: TaskId)
    ensures
        views(final(tasks)@) == views(old(tasks)@).filter(|x: TaskView| x.id != id),
{
    let ghost src = views(tasks@);
    let ghost pred = |x: TaskView| x.id != id;
    let mut kept: Vec<Task> = Vec::new();
    let mut i: usize = 0;
    while i < tasks.len()
        invariant
            i <= tasks.len(),
            src == views(tasks@),
            pred == (|x: TaskView| x.id != id),
            views(kept@) == src.subrange(0, i as int).filter(pred),
        decreases tasks.len() - i,
    {
        let ghost v = tasks@[i as int]@;
        proof {
            assert(src[i as int] == v);
            assert(src.subrange(0, i + 1) == src.subrange(0, i as int).push(v));
            lemma_filter_push(src.subrange(0, i as int), pred, v);
        }
        if tasks[i].id != id {
            let ghost before = kept@;
            kept.push(tasks[i].copy());
            proof {
                assert(views(kept@) =~= views(before).push(v));
            }
        }
        i = i + 1;
    }
    proof {
        assert(src.subrange(0, src.len() as int) == src);
    }
    *tasks = kept;
}

fn copy_option(t: &Option<Task>) -> (r: Option<Task>)
    ensures
        option_view(r) == option_view(*t),
{
    match t {
        Some(x) => Some(x.copy()),
        None => None,
    }
}

/// Restores one change in `tasks`.
pub fn apply_task_change(tasks: &mut Vec<Task>, change: &TaskChange, use_after: bool)
    requires
        change_wf(change@),
    ensures
        views(final(tasks)@) == apply_change(views(old(tasks)@), change@, use_after),
{
    let id = match &change.before {
        Some(t) => t.id,
        None => match &change.after {
            Some(t) => t.id,
            None => {
                assert(false);
                return;
            },
        },
    };
    let state = if use_after {
        copy_option(&change.after)
    } else {
        copy_option(&change.before)
    };
    let ghost old_views = views(tasks@);
    proof {
        reveal(apply_change);
    }
    match state {
        Some(t) => match find_task(tasks, id) {
            Some(i) => {
                let ghost tv = t@;
                tasks.set(i, t);
                proof {
                    assert(views(tasks@) =~= old_views.update(i as int, tv));
                }
            },
            None => {
                let ghost tv = t@;
                tasks.push(t);
                proof {
                    assert(views(tasks@) =~= old_views.push(tv));
                }
            },
        },
        None => remove_tasks_with_id(tasks, id),
    }
}

/// Restores the state before (`use_after == false`) or after every change of
/// `entry`, in order: its task changes to `tasks`, its project changes to
/// `projects` and its tag changes to `tags`.
pub fn apply_history(
    tasks: &mut Vec<Task>,
    projects: &mut Vec<Project>,
    tags: &mut Vec<Tag>,
    entry: &HistoryEntry,
    use_after: bool,
)
    requires
        entry.well_formed(),
    ensures
        views(final(tasks)@) == apply_changes(views(old(tasks)@), entry.changes(), use_after),
        final(projects)@ == apply_project_changes(old(projects)@, entry.project_changes@, use_after),
        final(tags)@ == apply_tag_changes(old(tags)@, entry.tag_changes@, use_after),
{
    apply_task_changes(tasks, entry, use_after);
    apply_project_changes_to(projects, &entry.project_changes, use_after);
    apply_tag_changes_to(tags, &entry.tag_changes, use_after);
}

/// What storing one restored side of an entry writes: the whole task list when the
/// entry changed tasks, and the projects and tags to store or delete.
#[derive(Debug)]
pub struct StorePlan {
    pub save_tasks: bool,
    pub projects_to_save: Vec<Project>,
    pub projects_to_delete: Vec<ProjectId>,
    pub tags_to_save: Vec<Tag>,
    pub tags_to_delete: Vec<TagId>,
}

/// What must be stored after restoring the before (`use_after == false`) or after
/// side of `entry`.
pub fn store_plan(entry: &HistoryEntry, use_after: bool) -> (r: StorePlan)
    requires
        entry.well_formed(),
    ensures
        r.save_tasks == (entry.task_changes@.len() > 0),
        r.projects_to_save@ == project_saves(entry.project_changes@, use_after),
        r.projects_to_delete@ == project_deletes(entry.project_changes@, use_after),
        r.tags_to_save@ == tag_saves(entry.tag_changes@, use_after),
        r.tags_to_delete@ == tag_deletes(entry.tag_changes@, use_after),
{
    let (projects_to_save, projects_to_delete) = project_store_lists(&entry.project_changes, use_after);
    let (tags_to_save, tags_to_delete) = tag_store_lists(&entry.tag_changes, use_after);
    StorePlan {
        save_tasks: entry.task_changes.len() > 0,
        projects_to_save,
        projects_to_delete,
        tags_to_save,
        tags_to_delete,
    }
}

fn apply_task_changes(tasks: &mut Vec<Task>, entry: &HistoryEntry, use_after: bool)
    requires
        forall|i: int| 0 <= i < entry.changes().len() ==> change_wf(#[trigger] entry.changes()[i]),
    ensures
        views(final(tasks)@) == apply_changes(views(old(tasks)@), entry.changes(), use_after),
{
    let ghost cs = entry.changes();
    let ghost start = views(tasks@);
    let mut i: usize = 0;
    proof {
        assert(cs.skip(0) =~= cs);
    }
    while i < entry.task_changes.len()
        invariant
            i <= entry.task_changes.len(),
            cs == entry.changes(),
            cs.len() == entry.task_changes.len(),
            forall|k: int| 0 <= k < cs.len() ==> change_wf(#[trigger] cs[k]),
            apply_changes(start, cs, use_after) == apply_changes(views(tasks@), cs.skip(i as int), use_after),
        decreases entry.task_changes.len() - i,
    {
        let ghost before = views(tasks@);
        proof {
            assert(cs[i as int] == entry.task_changes@[i as int]@);
        }
        apply_task_change(tasks, &entry.task_changes[i], use_after);
        proof {
            let rest = cs.skip(i as int);
            assert(rest[0] == cs[i as int]);
            assert(rest.drop_first() =~= cs.skip(i + 1));
        }
        i = i + 1;
    }
    proof {
        assert(cs.skip(i as int).len() == 0);
    }
}

/// A change that edits one existing task in place and keeps its identifier.
pub open spec fn is_edit(c: ChangeView) -> bool {
    &&& c.before is Some
    &&& c.after is Some
    &&& c.after.unwrap().id == c.before.unwrap().id
}

/// No two tasks share an identifier.
pub open spec fn ids_unique(tasks: Seq<TaskView>) -> bool {
    forall|a: int, b: int| 0 <= a < tasks.len() && 0 <= b < tasks.len() && a != b ==> tasks[a].id != tasks[b].id
}

/// No two changes are about the same task.
pub open spec fn change_ids_distinct(cs: Seq<ChangeView>) -> bool {
    forall|a: int, b: int| 0 <= a < cs.len() && 0 <= b < cs.len() && a != b ==> change_id(cs[a]) != change_id(cs[b])
}

/// Some change is about the task with identifier `id`.
pub open spec fn has_change(cs: Seq<ChangeView>, id: TaskId) -> bool {
    exists|j: int| 0 <= j < cs.len() && change_id(cs[j]) == id
}

/// The position of a change about the task with identifier `id`.
pub open spec fn change_for(cs: Seq<ChangeView>, id: TaskId) -> int {
    choose|j: int| 0 <= j < cs.len() && change_id(cs[j]) == id
}

/// `tasks` with each task that a change is about replaced by that change's restored
/// side, positions unchanged.
#[verifier::opaque]
pub open spec fn edits_applied(tasks: Seq<TaskView>, cs: Seq<ChangeView>, use_after: bool) -> Seq<TaskView> {
    Seq::new(
        tasks.len(),
        |k: int|
            if has_change(cs, tasks[k].id) {
                change_state(cs[change_for(cs, tasks[k].id)], use_after).unwrap()
            } else {
                tasks[k]
            },
    )
}

/// Every change edits a distinct task of `tasks` (whose identifiers are unique), and
/// `tasks` holds that task as it was before the change.
pub open spec fn edits_recorded_from(tasks: Seq<TaskView>, cs: Seq<ChangeView>) -> bool {
    &&& ids_unique(tasks)
    &&& change_ids_distinct(cs)
    &&& forall|j: int| 0 <= j < cs.len() ==> is_edit(#[trigger] cs[j])
    &&& forall|j: int| 0 <= j < cs.len() ==> has_id(tasks, change_id(#[trigger] cs[j]))
    &&& forall|k: int|
        0 <= k < tasks.len() && has_change(cs, #[trigger] tasks[k].id) ==> tasks[k] == cs[change_for(
            cs,
            tasks[k].id,
        )].before.unwrap()
}

proof fn lemma_change_for(cs: Seq<ChangeView>, j: int)
    requires
        change_ids_distinct(cs),
        0 <= j < cs.len(),
    ensures
        has_change(cs, change_id(cs[j])),
        change_for(cs, change_id(cs[j])) == j,
{
    let id = change_id(cs[j]);
    assert(0 <= j < cs.len() && change_id(cs[j]) == id);
    let k = change_for(cs, id);
    assert(0 <= k < cs.len() && change_id(cs[k]) == id);
}

/// One edit step: applying the first change and then the rest agrees with
/// `edits_applied` on the whole sequence.
proof fn lemma_edits_step(tasks: Seq<TaskView>, cs: Seq<ChangeView>, use_after: bool)
    requires
        ids_unique(tasks),
        change_ids_distinct(cs),
        cs.len() > 0,
        forall|j: int| 0 <= j < cs.len() ==> is_edit(#[trigger] cs[j]),
        has_id(tasks, change_id(cs[0])),
    ensures
        ({
            let t1 = apply_change(tasks, cs[0], use_after);
            &&& t1.len() == tasks.len()
            &&& forall|k: int| 0 <= k < tasks.len() ==> (#[trigger] t1[k]).id == tasks[k].id
            &&& edits_applied(t1, cs.drop_first(), use_after) == edits_applied(tasks, cs, use_after)
        }),
{
    reveal(apply_change);
    reveal(edits_applied);
    let c = cs[0];
    let id = change_id(c);
    lemma_first_index_found(tasks, id);
    let i = first_index(tasks, id);
    assert(is_edit(c));
    let st = change_state(c, use_after).unwrap();
    let t1 = apply_change(tasks, c, use_after);
    assert(t1 == tasks.update(i, st));
    let rest = cs.drop_first();
    lemma_change_for(cs, 0);
    let lhs = edits_applied(t1, rest, use_after);
    let rhs = edits_applied(tasks, cs, use_after);
    assert forall|k: int| 0 <= k < tasks.len() implies lhs[k] == rhs[k] by {
        let kid = tasks[k].id;
        assert(t1[k].id == kid);
        if k == i {
            if has_change(rest, kid) {
                let q = change_for(rest, kid);
                assert(rest[q] == cs[q + 1]);
                assert(change_id(cs[q + 1]) == change_id(cs[0]));
            }
        } else {
            assert(kid != id) by {
                if kid == id {
                    assert(tasks[i].id == id);
                }
            }
            assert(t1[k] == tasks[k]);
            if has_change(cs, kid) {
                let j = change_for(cs, kid);
                assert(j != 0);
                assert(rest[j - 1] == cs[j]);
                assert(has_change(rest, kid));
                let q = change_for(rest, kid);
                assert(rest[q] == cs[q + 1]);
                lemma_change_for(cs, q + 1);
                lemma_change_for(cs, j);
            } else if has_change(rest, kid) {
                let q = change_for(rest, kid);
                assert(rest[q] == cs[q + 1]);
            }
        }
    }
    assert(lhs =~= rhs);
}

/// What the first edit leaves for the rest: unique identifiers, distinct present edits.
proof fn lemma_rest_of_edits(tasks: Seq<TaskView>, cs: Seq<ChangeView>, use_after: bool)
    requires
        ids_unique(tasks),
        change_ids_distinct(cs),
        cs.len() > 0,
        forall|j: int| 0 <= j < cs.len() ==> is_edit(#[trigger] cs[j]),
        forall|j: int| 0 <= j < cs.len() ==> has_id(tasks, change_id(#[trigger] cs[j])),
    ensures
        ({
            let t1 = apply_change(tasks, cs[0], use_after);
            let rest = cs.drop_first();
            &&& ids_unique(t1)
            &&& change_ids_distinct(rest)
            &&& forall|j: int| 0 <= j < rest.len() ==> is_edit(#[trigger] rest[j])
            &&& forall|j: int| 0 <= j < rest.len() ==> has_id(t1, change_id(#[trigger] rest[j]))
            &&& edits_applied(t1, rest, use_after) == edits_applied(tasks, cs, use_after)
        }),
{
    assert(has_id(tasks, change_id(cs[0])));
    lemma_edits_step(tasks, cs, use_after);
    let t1 = apply_change(tasks, cs[0], use_after);
    let rest = cs.drop_first();
    lemma_same_ids_unique(tasks, t1);
    assert forall|a: int, b: int| 0 <= a < rest.len() && 0 <= b < rest.len() && a != b implies change_id(
        rest[a],
    ) != change_id(rest[b]) by {
        assert(rest[a] == cs[a + 1]);
        assert(rest[b] == cs[b + 1]);
    }
    assert forall|j: int| 0 <= j < rest.len() implies is_edit(#[trigger] rest[j]) by {
        assert(rest[j] == cs[j + 1]);
    }
    assert forall|j: int| 0 <= j < rest.len() implies has_id(t1, change_id(#[trigger] rest[j])) by {
        assert(rest[j] == cs[j + 1]);
        lemma_same_ids_has_id(tasks, t1, change_id(cs[j + 1]));
    }
}

proof fn lemma_same_ids_unique(a: Seq<TaskView>, b: Seq<TaskView>)
    requires
        ids_unique(a),
        a.len() == b.len(),
        forall|k: int| 0 <= k < a.len() ==> (#[trigger] b[k]).id == a[k].id,
    ensures
        ids_unique(b),
{
    assert forall|x: int, y: int| 0 <= x < b.len() && 0 <= y < b.len() && x != y implies b[x].id != b[y].id by {
        assert(b[x].id == a[x].id);
        assert(b[y].id == a[y].id);
    }
}

proof fn lemma_same_ids_has_id(a: Seq<TaskView>, b: Seq<TaskView>, id: TaskId)
    requires
        has_id(a, id),
        a.len() == b.len(),
        forall|k: int| 0 <= k < a.len() ==> (#[trigger] b[k]).id == a[k].id,
    ensures
        has_id(b, id),
{
    let w = choose|w: int| 0 <= w < a.len() && a[w].id == id;
    assert(b[w].id == id);
}

/// Applying distinct edits of present tasks, in order, gives `edits_applied`.
pub(crate) proof fn lemma_apply_edits(tasks: Seq<TaskView>, cs: Seq<ChangeView>, use_after: bool)
    requires
        ids_unique(tasks),
        change_ids_distinct(cs),
        forall|j: int| 0 <= j < cs.len() ==> is_edit(#[trigger] cs[j]),
        forall|j: int| 0 <= j < cs.len() ==> has_id(tasks, change_id(#[trigger] cs[j])),
    ensures
        apply_changes(tasks, cs, use_after) == edits_applied(tasks, cs, use_after),
    decreases cs.len(),
{
    if cs.len() == 0 {
        reveal(edits_applied);
        assert(edits_applied(tasks, cs, use_after) =~= tasks);
    } else {
        lemma_rest_of_edits(tasks, cs, use_after);
        let t1 = apply_change(tasks, cs[0], use_after);
        lemma_apply_edits(t1, cs.drop_first(), use_after);
    }
}

/// Edits keep every task's identifier in place.
proof fn lemma_edits_keep_ids(tasks: Seq<TaskView>, cs: Seq<ChangeView>, use_after: bool)
    requires
        forall|j: int| 0 <= j < cs.len() ==> is_edit(#[trigger] cs[j]),
    ensures
        edits_applied(tasks, cs, use_after).len() == tasks.len(),
        forall|k: int|
            0 <= k < tasks.len() ==> (#[trigger] edits_applied(tasks, cs, use_after)[k]).id == tasks[k].id,
{
    reveal(edits_applied);
    let e = edits_applied(tasks, cs, use_after);
    assert forall|k: int| 0 <= k < tasks.len() implies (#[trigger] e[k]).id == tasks[k].id by {
        if has_change(cs, tasks[k].id) {
            let j = change_for(cs, tasks[k].id);
            assert(0 <= j < cs.len() && change_id(cs[j]) == tasks[k].id);
            assert(is_edit(cs[j]));
        }
    }
}

/// Undoing restores edits: when every change of an entry edits a distinct task that
/// `tasks` holds in its before state, applying the after states and then the before
/// states gives back `tasks` exactly.
pub proof fn lemma_undo_restores_edits(tasks: Seq<TaskView>, cs: Seq<ChangeView>)
    requires
        edits_recorded_from(tasks, cs),
    ensures
        apply_changes(apply_changes(tasks, cs, true), cs, false) == tasks,
{
    lemma_apply_edits(tasks, cs, true);
    let t1 = apply_changes(tasks, cs, true);
    lemma_edits_keep_ids(tasks, cs, true);
    lemma_same_ids_unique(tasks, t1);
    assert forall|j: int| 0 <= j < cs.len() implies has_id(t1, change_id(#[trigger] cs[j])) by {
        lemma_same_ids_has_id(tasks, t1, change_id(cs[j]));
    }
    lemma_apply_edits(t1, cs, false);
    let t2 = apply_changes(t1, cs, false);
    reveal(edits_applied);
    assert forall|k: int| 0 <= k < tasks.len() implies t2[k] == tasks[k] by {
        assert(t1[k].id == tasks[k].id);
        if has_change(cs, tasks[k].id) {
            let j = change_for(cs, tasks[k].id);
            assert(0 <= j < cs.len() && change_id(cs[j]) == tasks[k].id);
            assert(is_edit(cs[j]));
            assert(tasks[k] == cs[j].before.unwrap());
        }
    }
    assert(t2 =~= tasks);
}

/// Redoing after an undo gives back the edited tasks: under the same conditions,
/// applying the after states, then the before states, then the after states again
/// ends where the first application ended.
pub proof fn lemma_redo_after_undo(tasks: Seq<TaskView>, cs: Seq<ChangeView>)
    requires
        edits_recorded_from(tasks, cs),
    ensures
        ({
            let edited = apply_changes(tasks, cs, true);
            apply_changes(apply_changes(edited, cs, false), cs, true) == edited
        }),
{
    lemma_undo_restores_edits(tasks, cs);
}

/// `tasks` is a state right after the change `c` was made or redone: a created task
/// is the last one and no other task has its identifier, an edited task is the first
/// with its identifier, and a removed task's identifier is gone.
pub open spec fn shows_after(tasks: Seq<TaskView>, c: ChangeView) -> bool {
    match (c.before, c.after) {
        (None, Some(x)) => tasks.len() > 0 && tasks.last() == x && !has_id(tasks.drop_last(), x.id),
        (Some(b), Some(x)) => b.id == x.id && has_id(tasks, x.id) && tasks[first_index(tasks, x.id)] == x,
        (Some(b), None) => !has_id(tasks, b.id),
        (None, None) => false,
    }
}

/// Redoing after an undo gives back the state for a change of any kind (a creation,
/// an edit or a removal): from a state that shows the change's after side, undoing
/// and then redoing the change ends where it started.
pub proof fn lemma_redo_after_undo_change(tasks: Seq<TaskView>, c: ChangeView)
    requires
        shows_after(tasks, c),
    ensures
        apply_changes(apply_changes(tasks, seq![c], false), seq![c], true) == tasks,
{
    reveal(apply_change);
    let undone = apply_change(tasks, c, false);
    lemma_single_change(tasks, c, false);
    lemma_single_change(undone, c, true);
    let id = change_id(c);
    let pred = |x: TaskView| x.id != id;
    match (c.before, c.after) {
        (None, Some(x)) => {
            let rest = tasks.drop_last();
            assert(rest.push(x) =~= tasks);
            lemma_filter_push(rest, pred, x);
            assert forall|i: int| 0 <= i < rest.len() implies pred(rest[i]) by {
                if rest[i].id == id {
                    assert(has_id(rest, id));
                }
            }
            lemma_filter_keeps_all(rest, pred);
            assert(undone == rest);
        },
        (Some(b), Some(x)) => {
            lemma_first_index_found(tasks, id);
            let i = first_index(tasks, id);
            assert(undone == tasks.update(i, b));
            assert(undone[i].id == id);
            assert forall|j: int| 0 <= j < i implies undone[j].id != id by {
                assert(undone[j] == tasks[j]);
            }
            lemma_first_index(undone, id, i);
            assert(has_id(undone, id)) by {
                assert(undone[i].id == id);
            }
            assert(undone.update(i, x) =~= tasks);
        },
        (Some(b), None) => {
            assert(undone == tasks.push(b));
            lemma_filter_push(tasks, pred, b);
            assert forall|i: int| 0 <= i < tasks.len() implies pred(tasks[i]) by {
                if tasks[i].id == id {
                    assert(has_id(tasks, id));
                }
            }
            lemma_filter_keeps_all(tasks, pred);
            assert(has_id(undone, id)) by {
                assert(undone[tasks.len() as int].id == id);
            }
        },
        (None, None) => {},
    }
}

/// Undoing a creation removes the created task again: when no task of `tasks` has
/// the new task's identifier, adding it and undoing gives back `tasks`.
pub proof fn lemma_undo_removes_creation(tasks: Seq<TaskView>, created: TaskView)
    requires
        !has_id(tasks, created.id),
    ensures
        ({
            let c = ChangeView { before: None, after: Some(created) };
            apply_changes(apply_changes(tasks, seq![c], true), seq![c], false) == tasks
        }),
{
    reveal(apply_change);
    let c = ChangeView { before: None, after: Some(created) };
    let cs = seq![c];
    assert(change_id(c) == created.id);
    let t1 = apply_change(tasks, c, true);
    assert(t1 == tasks.push(created));
    assert(cs[0] == c);
    lemma_single_change(tasks, c, true);
    let pred = |x: TaskView| x.id != created.id;
    let t2 = apply_change(t1, c, false);
    assert(t2 == t1.filter(pred));
    lemma_single_change(t1, c, false);
    lemma_filter_push(tasks, pred, created);
    assert forall|i: int| 0 <= i < tasks.len() implies pred(tasks[i]) by {
        if tasks[i].id == created.id {
            assert(has_id(tasks, created.id));
        }
    }
    lemma_filter_keeps_all(tasks, pred);
}

proof fn lemma_single_change(tasks: Seq<TaskView>, c: ChangeView, use_after: bool)
    ensures
        apply_changes(tasks, seq![c], use_after) == apply_change(tasks, c, use_after),
{
    let cs = seq![c];
    assert(cs.drop_first() =~= Seq::<ChangeView>::empty());
    assert(apply_changes(apply_change(tasks, c, use_after), cs.drop_first(), use_after) == apply_change(
        tasks,
        c,
        use_after,
    ));
}

/// `after` is `before` once the task changes `changes` of one action are recorded:
/// nothing happens without changes; otherwise they become the newest undo entry,
/// the oldest entry leaves beyond the limit, and the redo stack empties.
pub open spec fn task_changes_recorded(before: History, after: History, changes: Seq<TaskChange>) -> bool {
    &&& changes.len() == 0 ==> after.undo_stack@ == before.undo_stack@ && after.redo_stack@ == before.redo_stack@
    &&& changes.len() > 0 ==> {
        &&& after.redo_stack@.len() == 0
        &&& after.undo_stack@.len() > 0
        &&& after.undo_stack@.last().task_changes@ == changes
        &&& after.undo_stack@.last().project_changes@.len() == 0
        &&& after.undo_stack@.last().tag_changes@.len() == 0
        &&& before.undo_stack@.len() < HISTORY_LIMIT ==> after.undo_stack@.drop_last() == before.undo_stack@
        &&& before.undo_stack@.len() >= HISTORY_LIMIT ==> after.undo_stack@.drop_last() == before.undo_stack@.drop_first()
    }
}

/// The undo and redo stacks.
#[derive(Debug)]
pub struct History {
    pub undo_stack: Vec<HistoryEntry>,
    pub redo_stack: Vec<HistoryEntry>,
}

impl History {
    pub fn new() -> (r: History)
        ensures
            r.undo_stack@.len() == 0,
            r.redo_stack@.len() == 0,
    {
        History { undo_stack: Vec::new(), redo_stack: Vec::new() }
    }

    /// Records a new action: it goes on top of the undo stack, the oldest entry is
    /// dropped beyond 50, and the redo stack is cleared.
    pub fn push(&mut self, entry: HistoryEntry)
        ensures
            final(self).redo_stack@.len() == 0,
            old(self).undo_stack@.len() < HISTORY_LIMIT ==> final(self).undo_stack@ == old(self).undo_stack@.push(entry),
            old(self).undo_stack@.len() >= HISTORY_LIMIT ==> final(self).undo_stack@ == old(self).undo_stack@.push(entry).drop_first(),
            old(self).undo_stack@.len() <= HISTORY_LIMIT ==> final(self).undo_stack@.len() <= HISTORY_LIMIT,
    {
        self.undo_stack.push(entry);
        if self.undo_stack.len() > HISTORY_LIMIT {
            self.undo_stack.remove(0);
        }
        self.redo_stack.clear();
    }

    /// Records the task changes of one action, unless there are none.
    pub fn push_task_changes(&mut self, changes: Vec<TaskChange>)
        ensures
            changes@.len() == 0 ==> final(self).undo_stack@ == old(self).undo_stack@ && final(self).redo_stack@
                == old(self).redo_stack@,
            changes@.len() > 0 ==> final(self).redo_stack@.len() == 0,
            changes@.len() > 0 ==> final(self).undo_stack@.len() > 0,
            changes@.len() > 0 ==> final(self).undo_stack@.last().task_changes@ == changes@,
            changes@.len() > 0 ==> final(self).undo_stack@.last().project_changes@.len() == 0,
            changes@.len() > 0 ==> final(self).undo_stack@.last().tag_changes@.len() == 0,
            changes@.len() > 0 && old(self).undo_stack@.len() < HISTORY_LIMIT ==> final(self).undo_stack@.drop_last()
                == old(self).undo_stack@,
            changes@.len() > 0 && old(self).undo_stack@.len() >= HISTORY_LIMIT ==> final(self).undo_stack@.drop_last()
                == old(self).undo_stack@.drop_first(),
    {
        if changes.len() == 0 {
            return;
        }
        let entry = HistoryEntry::tasks(changes);
        self.push(entry);
    }

    /// Takes the newest entry to undo, if any.
    pub fn take_undo(&mut self) -> (r: Option<HistoryEntry>)
        ensures
            old(self).undo_stack@.len() == 0 ==> r is None && final(self).undo_stack@ == old(self).undo_stack@
                && final(self).redo_stack@ == old(self).redo_stack@,
            old(self).undo_stack@.len() > 0 ==> r == Some(old(self).undo_stack@.last())
                && final(self).undo_stack@ == old(self).undo_stack@.drop_last() && final(self).redo_stack@ == old(self).redo_stack@,
    {
        self.undo_stack.pop()
    }

    /// Puts an undone entry where it belongs: on the redo stack when the undo was
    /// stored, back on the undo stack when storing failed.
    pub fn finish_undo(&mut self, entry: HistoryEntry, stored: bool)
        ensures
            stored ==> final(self).redo_stack@ == old(self).redo_stack@.push(entry) && final(self).undo_stack@ == old(self).undo_stack@,
            !stored ==> final(self).undo_stack@ == old(self).undo_stack@.push(entry) && final(self).redo_stack@ == old(self).redo_stack@,
    {
        if stored {
            self.redo_stack.push(entry);
        } else {
            self.undo_stack.push(entry);
        }
    }

    /// Takes the newest entry to redo, if any.
    pub fn take_redo(&mut self) -> (r: Option<HistoryEntry>)
        ensures
            old(self).redo_stack@.len() == 0 ==> r is None && final(self).redo_stack@ == old(self).redo_stack@
                && final(self).undo_stack@ == old(self).undo_stack@,
            old(self).redo_stack@.len() > 0 ==> r == Some(old(self).redo_stack@.last())
                && final(self).redo_stack@ == old(self).redo_stack@.drop_last() && final(self).undo_stack@ == old(self).undo_stack@,
    {
        self.redo_stack.pop()
    }

    /// Puts a redone entry where it belongs: on the undo stack when the redo was
    /// stored, back on the redo stack when storing failed.
    pub fn finish_redo(&mut self, entry: HistoryEntry, stored: bool)
        ensures
            stored ==> final(self).undo_stack@ == old(self).undo_stack@.push(entry) && final(self).redo_stack@ == old(self).redo_stack@,
            !stored ==> final(self).redo_stack@ == old(self).redo_stack@.push(entry) && final(self).undo_stack@ == old(self).undo_stack@,
    {
        if stored {
            self.undo_stack.push(entry);
        } else {
            self.redo_stack.push(entry);
        }
    }

    /// Forgets all history (after the trash is emptied or data is restored).
    pub fn clear(&mut self)
        ensures
            final(self).undo_stack@.len() == 0,
            final(self).redo_stack@.len() == 0,
    {
        self.undo_stack.clear();
        self.redo_stack.clear();
    }
}

/// The entries the next undo (`undo == true`) or redo takes from.
pub open spec fn step_stack(history: History, undo: bool) -> Seq<HistoryEntry> {
    if undo {
        history.undo_stack@
    } else {
        history.redo_stack@
    }
}

/// The first half of an undo (`undo == true`) or a redo: the newest entry leaves its
/// stack and its before side (for an undo) or after side (for a redo) is restored in
/// `tasks`, `projects` and `tags`. Nothing changes when the stack is empty. The
/// entry is returned so that the state can be stored and the step settled.
pub fn begin_history_step(
    history: &mut History,
    tasks: &mut Vec<Task>,
    projects: &mut Vec<Project>,
    tags: &mut Vec<Tag>,
    undo: bool,
) -> (r: Option<HistoryEntry>)
    requires
        step_stack(*old(history), undo).len() > 0 ==> step_stack(*old(history), undo).last().well_formed(),
    ensures
        step_stack(*old(history), undo).len() == 0 ==> {
            &&& r is None
            &&& final(history).undo_stack@ == old(history).undo_stack@
            &&& final(history).redo_stack@ == old(history).redo_stack@
            &&& views(final(tasks)@) == views(old(tasks)@)
            &&& final(projects)@ == old(projects)@
            &&& final(tags)@ == old(tags)@
        },
        step_stack(*old(history), undo).len() > 0 ==> {
            let e = step_stack(*old(history), undo).last();
            &&& r == Some(e)
            &&& step_stack(*final(history), undo) == step_stack(*old(history), undo).drop_last()
            &&& step_stack(*final(history), !undo) == step_stack(*old(history), !undo)
            &&& views(final(tasks)@) == apply_changes(views(old(tasks)@), e.changes(), !undo)
            &&& final(projects)@ == apply_project_changes(old(projects)@, e.project_changes@, !undo)
            &&& final(tags)@ == apply_tag_changes(old(tags)@, e.tag_changes@, !undo)
        },
{
    let taken = if undo {
        history.take_undo()
    } else {
        history.take_redo()
    };
    match taken {
        Some(entry) => {
            apply_history(tasks, projects, tags, &entry, !undo);
            Some(entry)
        },
        None => None,
    }
}

/// The second half of an undo (`undo == true`) or a redo of `entry`, once storing
/// the restored state answered `stored`. When it was stored, the entry goes onto the
/// other stack and the state stays. When storing failed, the state is rolled back to
/// the side it had before the step and the entry goes back where it came from, so
/// that no history is lost.
pub fn settle_history_step(
    history: &mut History,
    tasks: &mut Vec<Task>,
    projects: &mut Vec<Project>,
    tags: &mut Vec<Tag>,
    entry: HistoryEntry,
    undo: bool,
    stored: bool,
)
    requires
        entry.well_formed(),
    ensures
        stored ==> {
            &&& step_stack(*final(history), !undo) == step_stack(*old(history), !undo).push(entry)
            &&& step_stack(*final(history), undo) == step_stack(*old(history), undo)
            &&& views(final(tasks)@) == views(old(tasks)@)
            &&& final(projects)@ == old(projects)@
            &&& final(tags)@ == old(tags)@
        },
        !stored ==> {
            &&& step_stack(*final(history), undo) == step_stack(*old(history), undo).push(entry)
            &&& step_stack(*final(history), !undo) == step_stack(*old(history), !undo)
            &&& views(final(tasks)@) == apply_changes(views(old(tasks)@), entry.changes(), undo)
            &&& final(projects)@ == apply_project_changes(old(projects)@, entry.project_changes@, undo)
            &&& final(tags)@ == apply_tag_changes(old(tags)@, entry.tag_changes@, undo)
        },
{
    if !stored {
        apply_history(tasks, projects, tags, &entry, undo);
    }
    if undo {
        history.finish_undo(entry, stored);
    } else {
        history.finish_redo(entry, stored);
    }
}

} // verus!
