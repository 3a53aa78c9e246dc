//! Which task is open and which tasks are selected: clicks, shift-click ranges,
//! keyboard moves and the done toggle.
use vstd::prelude::*;

use crate::ids::TaskId;
use crate::task::TaskStatus;

use crate::seqs::lemma_first_match;

verus! {

/// The open task, the anchor of shift-click ranges, the selected tasks (each once)
/// and whether the list shows selection boxes.
#[derive(Clone, Debug)]
pub struct SelectionState {
    pub selected_task: Option<TaskId>,
    pub anchor: Option<TaskId>,
    pub selected: Vec<TaskId>,
    pub selection_mode: bool,
}

/// What the caller does after a click.
#[derive(Clone, Copy, Debug, PartialEq, Eq, Structural)]
pub enum ClickAction {
    /// Open the task the ordinary way (saving pending edits first).
    Open(TaskId),
    /// The selection changed: refresh the detail pane.
    Refresh,
    /// Nothing changed.
    Ignore,
}

impl SelectionState {
    pub open spec fn wf(self) -> bool {
        self.selected@.no_duplicates()
    }

    /// The set of selected tasks.
    pub open spec fn selected_set(self) -> Set<TaskId> {
        self.selected@.to_set()
    }

    /// Nothing open, nothing selected.
    pub fn new() -> (r: SelectionState)
        ensures
            r.wf(),
            r.selected_task is None,
            r.anchor is None,
            r.selected@.len() == 0,
            !r.selection_mode,
    {
        SelectionState { selected_task: None, anchor: None, selected: Vec::new(), selection_mode: false }
    }

    /// Opens `id`, which also becomes the anchor of shift-click ranges.
    pub fn open(&mut self, id: TaskId)
        ensures
            final(self).selected_task == Some(id),
            final(self).anchor == Some(id),
            final(self).selected@ == old(self).selected@,
            final(self).selection_mode == old(self).selection_mode,
    {
        self.selected_task = Some(id);
        self.anchor = Some(id);
    }

    /// Selecting `id` from the list or the keyboard. Choosing the open task again
    /// only makes it the anchor. Switching to another task needs the pending edits of
    /// the open one saved first: `flushed` tells whether that save succeeded. When it
    /// failed, nothing changes and the pending input stays; otherwise `id` opens and
    /// becomes the anchor. Returns whether the detail pane shows another task.
    pub fn select(&mut self, id: TaskId, flushed: bool) -> (r: bool)
        ensures
            old(self).selected_task == Some(id) ==> !r && *final(self) == (SelectionState { anchor: Some(id), ..*old(self) }),
            old(self).selected_task != Some(id) && !flushed ==> !r && *final(self) == *old(self),
            old(self).selected_task != Some(id) && flushed ==> r && *final(self) == (SelectionState {
                selected_task: Some(id),
                anchor: Some(id),
                ..*old(self)
            }),
    {
        if self.selected_task == Some(id) {
            self.anchor = Some(id);
            return false;
        }
        if !flushed {
            return false;
        }
        self.selected_task = Some(id);
        self.anchor = Some(id);
        true
    }
}

/// The position of the first occurrence of `id` in `ids`.
pub open spec fn first_position(ids: Seq<TaskId>, id: TaskId) -> int {
    choose|i: int| 0 <= i < ids.len() && ids[i] == id && forall|j: int| 0 <= j < i ==> ids[j] != id
}

/// The position of the first occurrence of `id` in `ids`, if any.
pub fn position_in(ids: &Vec<TaskId>, id: TaskId) -> (r: Option<usize>)
    ensures
        r is None <==> !ids@.contains(id),
        r matches Some(i) ==> i < ids.len() && ids@[i as int] == id && i == first_position(ids@, id),
{
    let mut i: usize = 0;
    while i < ids.len()
        invariant
            i <= ids.len(),
            forall|j: int| 0 <= j < i ==> ids@[j] != id,
        decreases ids.len() - i,
    {
        if ids[i] == id {
            proof {
                let k = first_position(ids@, id);
                assert(0 <= i < ids@.len() && ids@[i as int] == id && forall|j: int| 0 <= j < i ==> ids@[j] != id);
                if k < i {
                    assert(ids@[k] != id);
                } else if k > i {
                    assert(ids@[i as int] != id);
                }
            }
            return Some(i);
        }
        i = i + 1;
    }
    None
}

proof fn lemma_to_set_push(s: Seq<TaskId>, e: TaskId)
    ensures
        s.push(e).to_set() == s.to_set().insert(e),
{
    let t = s.push(e);
    assert forall|x: TaskId| t.contains(x) <==> (s.contains(x) || x == e) by {
        if t.contains(x) {
            let k = choose|k: int| 0 <= k < t.len() && t[k] == x;
            if k < s.len() {
                assert(s[k] == x);
            }
        }
        if s.contains(x) {
            let k = choose|k: int| 0 <= k < s.len() && s[k] == x;
            assert(t[k] == x);
        }
        if x == e {
            assert(t[s.len() as int] == e);
        }
    }
    assert(t.to_set() =~= s.to_set().insert(e));
}

/// Adds `id` to (or, with `selected == false`, removes it from) the selected tasks.
pub fn set_task_selected(ids: &mut Vec<TaskId>, id: TaskId, selected: bool)
    requires
        old(ids)@.no_duplicates(),
    ensures
        final(ids)@.no_duplicates(),
        selected ==> final(ids)@.to_set() == old(ids)@.to_set().insert(id),
        !selected ==> final(ids)@.to_set() == old(ids)@.to_set().remove(id),
{
    let found = position_in(ids, id);
    if selected {
        if found.is_none() {
            ids.push(id);
            proof {
                lemma_to_set_push(old(ids)@, id);
                assert forall|a: int, b: int| 0 <= a < b < ids@.len() implies ids@[a] != ids@[b] by {
                    if b == ids@.len() - 1 {
                        assert(ids@[a] == old(ids)@[a]);
                        assert(old(ids)@.contains(ids@[a]));
                    }
                }
            }
        } else {
            proof {
                assert(ids@.to_set() =~= old(ids)@.to_set().insert(id));
            }
        }
    } else {
        match found {
            Some(i) => {
                let ghost before = ids@;
                ids.remove(i);
                proof {
                    assert forall|x: TaskId| ids@.to_set().contains(x) <==> before.to_set().remove(id).contains(x) by {
                        if x == id {
                            if ids@.contains(x) {
                                let k = choose|k: int| 0 <= k < ids@.len() && ids@[k] == x;
                                if k < i {
                                    assert(before[k] == x);
                                } else {
                                    assert(before[k + 1] == x);
                                }
                            }
                        } else if before.contains(x) {
                            let k = choose|k: int| 0 <= k < before.len() && before[k] == x;
                            if k < i {
                                assert(ids@[k] == x);
                            } else {
                                assert(ids@[k - 1] == x);
                            }
                        } else if ids@.contains(x) {
                            let k = choose|k: int| 0 <= k < ids@.len() && ids@[k] == x;
                            if k < i {
                                assert(before[k] == x);
                            } else {
                                assert(before[k + 1] == x);
                            }
                        }
                    }
                    assert(ids@.to_set() =~= before.to_set().remove(id));
                    assert forall|a: int, b: int| 0 <= a < b < ids@.len() implies ids@[a] != ids@[b] by {
                        let a2 = if a < i { a } else { a + 1 };
                        let b2 = if b < i { b } else { b + 1 };
                        assert(ids@[a] == before[a2]);
                        assert(ids@[b] == before[b2]);
                    }
                }
            },
            None => {
                proof {
                    assert(ids@.to_set() =~= old(ids)@.to_set().remove(id));
                }
            },
        }
    }
}

/// The tasks selected after a shift-click: the rows from `start` to `end` of
/// `visible`, added to `kept`.
pub open spec fn with_range(kept: Set<TaskId>, visible: Seq<TaskId>, start: int, end: int) -> Set<TaskId> {
    kept.union(visible.subrange(start, end + 1).to_set())
}

/// Adds the rows `start..=end` of `visible` to the selected tasks.
fn select_rows(ids: &mut Vec<TaskId>, visible: &Vec<TaskId>, start: usize, end: usize)
    requires
        old(ids)@.no_duplicates(),
        start <= end < visible.len(),
    ensures
        final(ids)@.no_duplicates(),
        final(ids)@.to_set() == with_range(old(ids)@.to_set(), visible@, start as int, end as int),
{
    let ghost kept = ids@.to_set();
    let mut k: usize = start;
    proof {
        assert(visible@.subrange(start as int, start as int).to_set() =~= Set::<TaskId>::empty());
        assert(ids@.to_set() =~= kept.union(Set::<TaskId>::empty()));
    }
    while k <= end
        invariant
            start <= k <= end + 1,
            end < visible.len(),
            ids@.no_duplicates(),
            ids@.to_set() == kept.union(visible@.subrange(start as int, k as int).to_set()),
        decreases end + 1 - k,
    {
        set_task_selected(ids, visible[k], true);
        proof {
            assert(visible@.subrange(start as int, k + 1) == visible@.subrange(start as int, k as int).push(
                visible@[k as int],
            ));
            lemma_to_set_push(visible@.subrange(start as int, k as int), visible@[k as int]);
            assert(ids@.to_set() =~= kept.union(visible@.subrange(start as int, k + 1).to_set()));
        }
        k = k + 1;
    }
}

/// The row a shift-click range starts from: the anchor, else the open task, else the
/// clicked one.
pub open spec fn range_anchor(state: SelectionState, id: TaskId) -> TaskId {
    match state.anchor {
        Some(a) => a,
        None => match state.selected_task {
            Some(s) => s,
            None => id,
        },
    }
}

/// The selection after a shift-click from row `a` to row `c` of `visible`.
pub open spec fn shift_selection(old_set: Set<TaskId>, visible: Seq<TaskId>, a: int, c: int, secondary: bool) -> Set<TaskId> {
    with_range(
        if secondary {
            old_set
        } else {
            Set::empty()
        },
        visible,
        if a <= c { a } else { c },
        if a <= c { c } else { a },
    )
}

/// What a click on the row of `id` does to the state `prev`, with result `r` and new
/// state `new` (see `click_task`).
pub open spec fn click_result(
    prev: SelectionState,
    visible: Seq<TaskId>,
    id: TaskId,
    shift: bool,
    secondary: bool,
    r: ClickAction,
    new: SelectionState,
) -> bool {
    &&& (!shift && !secondary ==> r == ClickAction::Open(id) && new == prev)
    &&& (!shift && secondary ==> {
        &&& r == ClickAction::Refresh
        &&& new.selection_mode
        &&& new.selected_task == Some(id)
        &&& new.anchor == Some(id)
        &&& prev.selected_set().contains(id) ==> new.selected_set() == prev.selected_set().remove(id)
        &&& !prev.selected_set().contains(id) ==> new.selected_set() == prev.selected_set().insert(id)
    })
    &&& (shift && !visible.contains(range_anchor(prev, id)) ==> r == ClickAction::Open(id) && new == prev)
    &&& (shift && visible.contains(range_anchor(prev, id)) && !visible.contains(id) ==> r == ClickAction::Ignore
        && new == prev)
    &&& (shift && visible.contains(range_anchor(prev, id)) && visible.contains(id) ==> {
        &&& r == ClickAction::Refresh
        &&& new.selection_mode
        &&& new.selected_task == Some(id)
        &&& new.anchor == prev.anchor
        &&& new.selected_set() == shift_selection(
            prev.selected_set(),
            visible,
            first_position(visible, range_anchor(prev, id)),
            first_position(visible, id),
            secondary,
        )
    })
}

/// A plain click opens the task the ordinary way and changes nothing else. A
/// secondary click toggles the clicked task alone: it becomes selected when it was
/// not and unselected when it was, every other task keeps its state, selection mode
/// turns on, and the clicked task opens and becomes the anchor.
pub proof fn lemma_plain_and_secondary_click(
    prev: SelectionState,
    visible: Seq<TaskId>,
    id: TaskId,
    r: ClickAction,
    new: SelectionState,
    secondary: bool,
)
    requires
        click_result(prev, visible, id, false, secondary, r, new),
    ensures
        !secondary ==> r == ClickAction::Open(id) && new == prev,
        secondary ==> {
            &&& new.selected_set().contains(id) <==> !prev.selected_set().contains(id)
            &&& forall|x: TaskId| x != id ==> (new.selected_set().contains(x) <==> prev.selected_set().contains(x))
            &&& new.selection_mode
            &&& new.selected_task == Some(id)
            &&& new.anchor == Some(id)
            &&& r == ClickAction::Refresh
        },
{
}

/// A shift-click selects the rows from the anchor to the clicked row. Without the
/// secondary key the selection becomes exactly those rows, so a task selected
/// before and outside them is no longer selected; with the secondary key the rows
/// are added to the earlier selection. Either way the clicked task opens, the anchor
/// stays, and every newly selected task is one of those rows.
pub proof fn lemma_shift_click(
    prev: SelectionState,
    visible: Seq<TaskId>,
    id: TaskId,
    secondary: bool,
    r: ClickAction,
    new: SelectionState,
)
    requires
        click_result(prev, visible, id, true, secondary, r, new),
        visible.contains(range_anchor(prev, id)),
        visible.contains(id),
    ensures
        ({
            let a = first_position(visible, range_anchor(prev, id));
            let c = first_position(visible, id);
            let lo = if a <= c { a } else { c };
            let hi = if a <= c { c } else { a };
            let rows = visible.subrange(lo, hi + 1).to_set();
            &&& !secondary ==> new.selected_set() == rows
            &&& secondary ==> new.selected_set() == prev.selected_set() + rows
            &&& forall|x: TaskId| new.selected_set().contains(x) && !prev.selected_set().contains(x) ==> rows.contains(x)
            &&& forall|x: TaskId| #[trigger] rows.contains(x) ==> exists|k: int| lo <= k <= hi && visible[k] == x
            &&& rows.contains(id)
            &&& new.selected_task == Some(id)
            &&& new.anchor == prev.anchor
            &&& r == ClickAction::Refresh
        }),
{
    let a = first_position(visible, range_anchor(prev, id));
    let c = first_position(visible, id);
    let lo = if a <= c { a } else { c };
    let hi = if a <= c { c } else { a };
    let rows = visible.subrange(lo, hi + 1).to_set();
    lemma_range_rows(visible, range_anchor(prev, id), id);
    assert(new.selected_set() == with_range(if secondary { prev.selected_set() } else { Set::empty() }, visible, lo, hi));
    if !secondary {
        assert(Set::<TaskId>::empty().union(rows) =~= rows);
    }
}

/// The rows between the first positions of `anchor` and `id` in `visible` hold `id`,
/// and each of them is one of those rows.
#[verifier::spinoff_prover]
#[verifier::rlimit(40)]
proof fn lemma_range_rows(visible: Seq<TaskId>, anchor: TaskId, id: TaskId)
    requires
        visible.contains(anchor),
        visible.contains(id),
    ensures
        ({
            let a = first_position(visible, anchor);
            let c = first_position(visible, id);
            let lo = if a <= c { a } else { c };
            let hi = if a <= c { c } else { a };
            let rows = visible.subrange(lo, hi + 1).to_set();
            &&& 0 <= lo <= hi < visible.len()
            &&& rows.contains(id)
            &&& forall|x: TaskId| #[trigger] rows.contains(x) ==> exists|k: int| lo <= k <= hi && visible[k] == x
        }),
{
    let a = first_position(visible, anchor);
    let c = first_position(visible, id);
    let lo = if a <= c { a } else { c };
    let hi = if a <= c { c } else { a };
    let sub = visible.subrange(lo, hi + 1);
    let w = choose|w: int| 0 <= w < visible.len() && visible[w] == id;
    lemma_first_position_exists(visible, id, w);
    let v = choose|v: int| 0 <= v < visible.len() && visible[v] == anchor;
    lemma_first_position_exists(visible, anchor, v);
    assert(sub[c - lo] == id);
    assert(sub.contains(id));
    assert forall|x: TaskId| #[trigger] sub.to_set().contains(x) implies exists|k: int| lo <= k <= hi && visible[k] == x by {
        let j = choose|j: int| 0 <= j < sub.len() && sub[j] == x;
        assert(visible[lo + j] == x);
    }
}

proof fn lemma_first_position_exists(ids: Seq<TaskId>, id: TaskId, w: int)
    requires
        0 <= w < ids.len(),
        ids[w] == id,
    ensures
        0 <= first_position(ids, id) < ids.len(),
        ids[first_position(ids, id)] == id,
{
    lemma_first_match(ids, |x: TaskId| x == id, w);
}

/// A click on the row of `id` after the pending edits were saved with the outcome
/// `flushed` (a shift or secondary click saves them first). When such a click finds
/// them unsaved, nothing changes and the pending input stays; any other click is
/// handled as `click_task` handles it.
pub fn click_after_flush(
    state: &mut SelectionState,
    visible: &Vec<TaskId>,
    id: TaskId,
    shift: bool,
    secondary: bool,
    flushed: bool,
) -> (r: ClickAction)
    requires
        old(state).wf(),
    ensures
        final(state).wf(),
        (shift || secondary) && !flushed ==> r == ClickAction::Ignore && *final(state) == *old(state),
        !((shift || secondary) && !flushed) ==> click_result(*old(state), visible@, id, shift, secondary, r, *final(state)),
{
    if (shift || secondary) && !flushed {
        return ClickAction::Ignore;
    }
    click_task(state, visible, id, shift, secondary)
}

/// Handles a click on the row of `id` in the list whose rows are `visible`, with the
/// shift and the secondary (command or control) keys as given.
///
/// A plain click opens the task. A secondary click turns selection mode on, adds or
/// removes the task, opens it and makes it the anchor. A shift-click selects the
/// rows between the anchor (or else the open task, or else the clicked one) and the
/// clicked row, in addition to the earlier selection when the secondary key is held;
/// it opens the clicked task without moving the anchor. A shift-click from an anchor
/// that is not on screen opens the task the ordinary way; a shift-click on a row that
/// is not on screen does nothing.
pub fn click_task(state: &mut SelectionState, visible: &Vec<TaskId>, id: TaskId, shift: bool, secondary: bool) -> (r: ClickAction)
    requires
        old(state).wf(),
    ensures
        final(state).wf(),
        click_result(*old(state), visible@, id, shift, secondary, r, *final(state)),
{
    if shift {
        let anchor = match state.anchor {
            Some(a) => a,
            None => match state.selected_task {
                Some(s) => s,
                None => id,
            },
        };
        let anchor_index = match position_in(visible, anchor) {
            Some(i) => i,
            None => return ClickAction::Open(id),
        };
        let clicked_index = match position_in(visible, id) {
            Some(i) => i,
            None => return ClickAction::Ignore,
        };
        let (start, end) = if anchor_index <= clicked_index {
            (anchor_index, clicked_index)
        } else {
            (clicked_index, anchor_index)
        };
        state.selection_mode = true;
        if !secondary {
            state.selected.clear();
            proof {
                assert(state.selected@.to_set() =~= Set::<TaskId>::empty());
            }
        }
        select_rows(&mut state.selected, visible, start, end);
        state.selected_task = Some(id);
        ClickAction::Refresh
    } else if secondary {
        state.selection_mode = true;
        let present = position_in(&state.selected, id).is_some();
        set_task_selected(&mut state.selected, id, !present);
        state.selected_task = Some(id);
        state.anchor = Some(id);
        proof {
            assert(present == old(state).selected@.contains(id));
        }
        ClickAction::Refresh
    } else {
        ClickAction::Open(id)
    }
}

/// The row that a keyboard move opens in a list of `len` rows whose open row is
/// `current`: one up for a negative `direction` (staying at the top), else one down
/// (staying at the bottom); without an open row, the last row going up or the first
/// going down; nothing in an empty list.
pub fn move_selection_index(len: usize, current: Option<usize>, direction: i32) -> (r: Option<usize>)
    requires
        current matches Some(i) ==> i < len,
    ensures
        len == 0 ==> r is None,
        len > 0 ==> r == Some(
            match current {
                Some(i) => if direction < 0 {
                    if i == 0 {
                        0usize
                    } else {
                        (i - 1) as usize
                    }
                } else if i + 1 < len {
                    (i + 1) as usize
                } else {
                    (len - 1) as usize
                },
                None => if direction < 0 {
                    (len - 1) as usize
                } else {
                    0usize
                },
            },
        ),
{
    if len == 0 {
        return None;
    }
    let index = match current {
        Some(i) => if direction < 0 {
            if i == 0 {
                0
            } else {
                i - 1
            }
        } else if i + 1 < len {
            i + 1
        } else {
            len - 1
        },
        None => if direction < 0 {
            len - 1
        } else {
            0
        },
    };
    Some(index)
}

/// The status that the done toggle sets: `Todo` for a done task, `Done` otherwise.
pub fn toggled_done_status(status: TaskStatus) -> (r: TaskStatus)
    ensures
        status == TaskStatus::Done ==> r == TaskStatus::Todo,
        status != TaskStatus::Done ==> r == TaskStatus::Done,
{
    if status == TaskStatus::Done {
        TaskStatus::Todo
    } else {
        TaskStatus::Done
    }
}

} // verus!
