//! What the workspace state becomes once storage has answered: keeping or rolling
//! back task edits, the aftermath of purging the trash, and closing the editor
//! after a save.
use vstd::prelude::*;

use crate::calendar::Timestamp;
use crate::editing::{NewTaskDraft, contains_task_id, expired_ids, remove_expired_trash};
use crate::history::{
    History, HistoryEntry, TaskChange, apply_changes, apply_history, change_views, change_wf,
    task_changes_recorded,
};
use crate::ids::TaskId;
use crate::selection::SelectionState;
use crate::sorting::views;
use crate::task::{Task, TaskView};

use crate::seqs::lemma_filter_push;

verus! {

/// Settles task edits that were made in memory once storing them answered `stored`
/// (a rank swap, a bulk update). Stored edits are recorded as one undo entry and the
/// tasks stay; when storing failed, every change is rolled back to its before side
/// and the history stays.
pub fn settle_task_changes(tasks: &mut Vec<Task>, history: &mut History, changes: Vec<TaskChange>, stored: bool)
    requires
        forall|i: int| 0 <= i < change_views(changes@).len() ==> change_wf(#[trigger] change_views(changes@)[i]),
    ensures
        stored ==> views(final(tasks)@) == views(old(tasks)@) && task_changes_recorded(
            *old(history),
            *final(history),
            changes@,
        ),
        !stored ==> views(final(tasks)@) == apply_changes(views(old(tasks)@), change_views(changes@), false)
            && final(history).undo_stack@ == old(history).undo_stack@ && final(history).redo_stack@
            == old(history).redo_stack@,
{
    if stored {
        history.push_task_changes(changes);
    } else {
        let entry = HistoryEntry::tasks(changes);
        proof {
            assert(entry.changes() == change_views(changes@));
        }
        let mut projects = Vec::new();
        let mut tags = Vec::new();
        apply_history(tasks, &mut projects, &mut tags, &entry, false);
    }
}

/// `ids` without the identifiers of `gone`.
pub open spec fn without_ids(ids: Seq<TaskId>, gone: Seq<TaskId>) -> Seq<TaskId> {
    ids.filter(|id: TaskId| !gone.contains(id))
}

fn retain_ids(ids: &mut Vec<TaskId>, gone: &Vec<TaskId>)
    ensures
        final(ids)@ == without_ids(old(ids)@, gone@),
{
    let ghost src = ids@;
    let ghost pred = |id: TaskId| !gone@.contains(id);
    let mut kept: Vec<TaskId> = Vec::new();
    let mut i: usize = 0;
    while i < ids.len()
        invariant
            i <= ids.len(),
            ids@ == src,
            pred == (|id: TaskId| !gone@.contains(id)),
            kept@ == src.subrange(0, i as int).filter(pred),
        decreases ids.len() - i,
    {
        proof {
            assert(src.subrange(0, i + 1) == src.subrange(0, i as int).push(src[i as int]));
            lemma_filter_push(src.subrange(0, i as int), pred, src[i as int]);
        }
        if !contains_task_id(gone, ids[i]) {
            kept.push(ids[i]);
        }
        i = i + 1;
    }
    proof {
        assert(src.subrange(0, src.len() as int) == src);
    }
    *ids = kept;
}

/// A pending edit, unless it is for one of the tasks `gone`.
pub open spec fn pending_kept(p: Option<(TaskId, String)>, gone: Seq<TaskId>) -> Option<(TaskId, String)> {
    match p {
        Some(x) => if gone.contains(x.0) {
            None
        } else {
            Some(x)
        },
        None => None,
    }
}

fn drop_pending(p: &mut Option<(TaskId, String)>, gone: &Vec<TaskId>)
    ensures
        *final(p) == pending_kept(*old(p), gone@),
{
    let remove = match p {
        Some(x) => contains_task_id(gone, x.0),
        None => false,
    };
    if remove {
        *p = None;
    }
}

/// The workspace after the storage was asked to purge the expired trash at `now`
/// and answered `purged`. When the purge failed, nothing changes. Otherwise the
/// expired tasks leave the list; when there were any, they also leave the selection,
/// the open task closes if it was one of them, pending edits for them are dropped,
/// and the undo and redo history is cleared. Returns how many tasks left.
pub fn after_purge(
    tasks: &mut Vec<Task>,
    selection: &mut SelectionState,
    pending_title: &mut Option<(TaskId, String)>,
    pending_memo: &mut Option<(TaskId, String)>,
    history: &mut History,
    now: Timestamp,
    purged: bool,
) -> (r: usize)
    requires
        now.wf(),
    ensures
        !purged ==> {
            &&& r == 0
            &&& views(final(tasks)@) == views(old(tasks)@)
            &&& *final(selection) == *old(selection)
            &&& *final(pending_title) == *old(pending_title)
            &&& *final(pending_memo) == *old(pending_memo)
            &&& final(history).undo_stack@ == old(history).undo_stack@
            &&& final(history).redo_stack@ == old(history).redo_stack@
        },
        purged ==> {
            let gone = expired_ids(views(old(tasks)@), now);
            &&& r == gone.len()
            &&& views(final(tasks)@) == views(old(tasks)@).filter(|t: TaskView| !gone.contains(t.id))
            &&& gone.len() == 0 ==> {
                &&& *final(selection) == *old(selection)
                &&& *final(pending_title) == *old(pending_title)
                &&& *final(pending_memo) == *old(pending_memo)
                &&& final(history).undo_stack@ == old(history).undo_stack@
                &&& final(history).redo_stack@ == old(history).redo_stack@
            }
            &&& gone.len() > 0 ==> {
                &&& final(selection).selected@ == without_ids(old(selection).selected@, gone)
                &&& final(selection).selected_task == if old(selection).selected_task matches Some(id) && gone.contains(
                    id,
                ) {
                    None
                } else {
                    old(selection).selected_task
                }
                &&& final(selection).anchor == old(selection).anchor
                &&& final(selection).selection_mode == old(selection).selection_mode
                &&& *final(pending_title) == pending_kept(*old(pending_title), gone)
                &&& *final(pending_memo) == pending_kept(*old(pending_memo), gone)
                &&& final(history).undo_stack@.len() == 0
                &&& final(history).redo_stack@.len() == 0
            }
        },
{
    if !purged {
        return 0;
    }
    let gone = remove_expired_trash(tasks, now);
    if gone.len() == 0 {
        return 0;
    }
    retain_ids(&mut selection.selected, &gone);
    let close = match selection.selected_task {
        Some(id) => contains_task_id(&gone, id),
        None => false,
    };
    if close {
        selection.selected_task = None;
    }
    drop_pending(pending_title, &gone);
    drop_pending(pending_memo, &gone);
    history.clear();
    gone.len()
}

/// Saving the open task's form and closing the editor: the form is accepted when
/// `form_ok`, and storing the edit answered `stored`. Only when both hold does the
/// editor close (no task open, no new-task draft); otherwise it stays open as it was.
/// Returns whether it closed.
pub fn close_after_save(
    open: &mut Option<TaskId>,
    draft: &mut Option<NewTaskDraft>,
    form_ok: bool,
    stored: bool,
) -> (r: bool)
    ensures
        r == (form_ok && stored),
        r ==> *final(open) is None && *final(draft) is None,
        !r ==> *final(open) == *old(open) && *final(draft) == *old(draft),
{
    if !(form_ok && stored) {
        return false;
    }
    *open = None;
    *draft = None;
    true
}

} // verus!
