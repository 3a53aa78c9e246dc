//! The filter panel and saved views: toggling conditions, the due-date range, and
//! saving, updating and deleting views.
use vstd::prelude::*;
use vstd::string::StringExecFns;

use crate::calendar::{CivilDate, Timestamp, UtcOffset, instant_of_local, MAX_INSTANT_NANOS, MIN_INSTANT_NANOS};
use crate::due::{date_to_filter_datetime, parse_date_chars, parsed_date};
use crate::ids::SavedViewId;
use crate::listing::LiveFilter;
use crate::query::{FilterView, GroupBy, SavedBaseView, SavedView, SortSpec, TaskFilter, ViewKind, priority_filter_matches};
use crate::task::{Priority, TaskStatus, TaskView};
use crate::text::{chars_of, trim_chars, trimmed};
use crate::views::{
    SmartView, first_with_id, name_taken, validate_new_view_name, validate_renamed_view_name,
    view_name_length_error, view_name_taken_error,
};

verus! {

/// A copy of a list of plain values.
pub fn copied<T: Copy>(v: &Vec<T>) -> (r: Vec<T>)
    ensures
        r@ == v@,
{
    let mut out: Vec<T> = Vec::new();
    let mut i: usize = 0;
    while i < v.len()
        invariant
            i <= v.len(),
            out@ == v@.subrange(0, i as int),
        decreases v.len() - i,
    {
        out.push(v[i]);
        proof {
            assert(v@.subrange(0, i + 1) == v@.subrange(0, i as int).push(v@[i as int]));
        }
        i = i + 1;
    }
    proof {
        assert(v@.subrange(0, v@.len() as int) == v@);
    }
    out
}

/// `s` with `x` added when absent, or removed when present.
pub open spec fn toggled<T>(s: Set<T>, x: T) -> Set<T> {
    if s.contains(x) {
        s.remove(x)
    } else {
        s.insert(x)
    }
}

/// Adds `status` to the status filter, or removes it when chosen already.
pub fn toggle_status_filter(statuses: &mut Vec<TaskStatus>, status: TaskStatus)
    requires
        old(statuses)@.no_duplicates(),
    ensures
        final(statuses)@.no_duplicates(),
        final(statuses)@.to_set() == toggled(old(statuses)@.to_set(), status),
{
    let mut i: usize = 0;
    while i < statuses.len()
        invariant
            i <= statuses.len(),
            statuses@ == old(statuses)@,
            old(statuses)@.no_duplicates(),
            forall|j: int| 0 <= j < i ==> statuses@[j] != status,
        decreases statuses.len() - i,
    {
        if statuses[i] == status {
            let ghost before = statuses@;
            statuses.remove(i);
            proof {
                assert forall|x: TaskStatus| statuses@.contains(x) <==> before.to_set().remove(status).contains(x) by {
                    if statuses@.contains(x) {
                        let k = choose|k: int| 0 <= k < statuses@.len() && statuses@[k] == x;
                        let k2 = if k < i { k } else { k + 1 };
                        assert(before[k2] == x);
                        assert(k2 != i as int);
                        assert(before.contains(x));
                    }
                    if before.contains(x) && x != status {
                        let k = choose|k: int| 0 <= k < before.len() && before[k] == x;
                        if k < i {
                            assert(statuses@[k] == x);
                        } else {
                            assert(statuses@[k - 1] == x);
                        }
                    }
                }
                assert(statuses@.to_set() =~= toggled(before.to_set(), status));
                assert forall|a: int, b: int| 0 <= a < b < statuses@.len() implies statuses@[a] != statuses@[b] by {
                    let a2 = if a < i { a } else { a + 1 };
                    let b2 = if b < i { b } else { b + 1 };
                    assert(statuses@[a] == before[a2]);
                    assert(statuses@[b] == before[b2]);
                }
            }
            return;
        }
        i = i + 1;
    }
    let ghost before = statuses@;
    statuses.push(status);
    proof {
        assert(!before.contains(status));
        assert forall|x: TaskStatus| statuses@.contains(x) <==> before.to_set().insert(status).contains(x) by {
            if statuses@.contains(x) {
                let k = choose|k: int| 0 <= k < statuses@.len() && statuses@[k] == x;
                if k < before.len() {
                    assert(before[k] == x);
                }
            }
            if before.contains(x) {
                let k = choose|k: int| 0 <= k < before.len() && before[k] == x;
                assert(statuses@[k] == x);
            }
            if x == status {
                assert(statuses@[before.len() as int] == status);
            }
        }
        assert(statuses@.to_set() =~= toggled(before.to_set(), status));
        assert forall|a: int, b: int| 0 <= a < b < statuses@.len() implies statuses@[a] != statuses@[b] by {
            if b == before.len() {
                assert(statuses@[a] == before[a]);
            }
        }
    }
}

/// Adds `priority` to the priority filter, or removes it when chosen already.
pub fn toggle_priority_filter(priorities: &mut Vec<Priority>, priority: Priority)
    requires
        old(priorities)@.no_duplicates(),
    ensures
        final(priorities)@.no_duplicates(),
        final(priorities)@.to_set() == toggled(old(priorities)@.to_set(), priority),
{
    let mut i: usize = 0;
    while i < priorities.len()
        invariant
            i <= priorities.len(),
            priorities@ == old(priorities)@,
            old(priorities)@.no_duplicates(),
            forall|j: int| 0 <= j < i ==> priorities@[j] != priority,
        decreases priorities.len() - i,
    {
        if priorities[i] == priority {
            let ghost before = priorities@;
            priorities.remove(i);
            proof {
                assert forall|x: Priority| priorities@.contains(x) <==> before.to_set().remove(priority).contains(x) by {
                    if priorities@.contains(x) {
                        let k = choose|k: int| 0 <= k < priorities@.len() && priorities@[k] == x;
                        let k2 = if k < i { k } else { k + 1 };
                        assert(before[k2] == x);
                        assert(k2 != i as int);
                        assert(before.contains(x));
                    }
                    if before.contains(x) && x != priority {
                        let k = choose|k: int| 0 <= k < before.len() && before[k] == x;
                        if k < i {
                            assert(priorities@[k] == x);
                        } else {
                            assert(priorities@[k - 1] == x);
                        }
                    }
                }
                assert(priorities@.to_set() =~= toggled(before.to_set(), priority));
                assert forall|a: int, b: int| 0 <= a < b < priorities@.len() implies priorities@[a] != priorities@[b] by {
                    let a2 = if a < i { a } else { a + 1 };
                    let b2 = if b < i { b } else { b + 1 };
                    assert(priorities@[a] == before[a2]);
                    assert(priorities@[b] == before[b2]);
                }
            }
            return;
        }
        i = i + 1;
    }
    let ghost before = priorities@;
    priorities.push(priority);
    proof {
        assert(!before.contains(priority));
        assert forall|x: Priority| priorities@.contains(x) <==> before.to_set().insert(priority).contains(x) by {
            if priorities@.contains(x) {
                let k = choose|k: int| 0 <= k < priorities@.len() && priorities@[k] == x;
                if k < before.len() {
                    assert(before[k] == x);
                }
            }
            if before.contains(x) {
                let k = choose|k: int| 0 <= k < before.len() && before[k] == x;
                assert(priorities@[k] == x);
            }
            if x == priority {
                assert(priorities@[before.len() as int] == priority);
            }
        }
        assert(priorities@.to_set() =~= toggled(before.to_set(), priority));
        assert forall|a: int, b: int| 0 <= a < b < priorities@.len() implies priorities@[a] != priorities@[b] by {
            if b == before.len() {
                assert(priorities@[a] == before[a]);
            }
        }
    }
}

/// The message for a due-range boundary that is not a date.
pub open spec fn range_format_error() -> Seq<char> {
    "納期範囲は YYYY-MM-DD で入力してください"@
}

/// The message for a due range that starts after it ends.
pub open spec fn range_order_error() -> Seq<char> {
    "納期範囲の開始日は終了日以前にしてください"@
}

/// Sets the start (`from`) or the end of the due range from the typed `value`:
/// blank clears it, `YYYY-MM-DD` sets it, anything else leaves the range as it was.
/// The result is the message to show: the format
/// message, the order message when the range then starts after it ends, or none.
pub fn set_filter_due_boundary(live: &mut LiveFilter, from: bool, value: &str) -> (r: Option<String>)
    requires
        old(live).wf(),
    ensures
        final(live).wf(),
        trimmed(value@).len() > 0 && parsed_date(trimmed(value@)) is None ==> *final(live) == *old(live) && (r matches Some(
            m,
        ) && m@ == range_format_error()),
        trimmed(value@).len() == 0 || parsed_date(trimmed(value@)) is Some ==> {
            let date = if trimmed(value@).len() == 0 {
                None
            } else {
                parsed_date(trimmed(value@))
            };
            &&& final(live).due_from == if from {
                date
            } else {
                old(live).due_from
            }
            &&& final(live).due_to == if from {
                old(live).due_to
            } else {
                date
            }
            &&& final(live).statuses == old(live).statuses
            &&& final(live).priorities == old(live).priorities
            &&& final(live).projects == old(live).projects
            &&& final(live).unassigned_project == old(live).unassigned_project
            &&& final(live).tags == old(live).tags
            &&& final(live).match_all_tags == old(live).match_all_tags
            &&& final(live).due == old(live).due
            &&& (final(live).due_from matches Some(a) && final(live).due_to matches Some(b) && a.days() > b.days())
                ==> (r matches Some(m) && m@ == range_order_error())
            &&& !(final(live).due_from matches Some(a) && final(live).due_to matches Some(b) && a.days() > b.days())
                ==> r is None
        },
{
    let chars = chars_of(value);
    let t = trim_chars(&chars);
    let date: Option<CivilDate> = if t.len() == 0 {
        None
    } else {
        match parse_date_chars(&t) {
            Some(d) => Some(d),
            None => return Some(String::from_str("納期範囲は YYYY-MM-DD で入力してください")),
        }
    };
    if from {
        live.due_from = date;
    } else {
        live.due_to = date;
    }
    let inverted = match (live.due_from, live.due_to) {
        (Some(a), Some(b)) => b.is_before(&a),
        _ => false,
    };
    if inverted {
        Some(String::from_str("納期範囲の開始日は終了日以前にしてください"))
    } else {
        None
    }
}

/// The filter a saved view stores for the current panel: the base view, the search
/// text as typed, the panel's conditions, and each range boundary as midnight at
/// `offset` (dropped when that instant is out of range).
pub open spec fn filter_of_panel(
    live: LiveFilter,
    base_view: Option<SavedBaseView>,
    query: Seq<char>,
    offset: UtcOffset,
) -> FilterView {
    FilterView {
        base_view,
        query,
        statuses: live.statuses@,
        priorities: live.priorities@,
        project_ids: live.projects@,
        unassigned_project: live.unassigned_project,
        tag_ids: live.tags@,
        match_all_tags: live.match_all_tags,
        due_scope: live.due,
        due_from: boundary_instant(live.due_from, offset),
        due_to: boundary_instant(live.due_to, offset),
        include_archived: false,
        only_deleted: false,
    }
}

/// A saved view keeps each choice of the filter panel it was saved from: the
/// statuses, priorities, projects, unassigned-project choice, tags and tag mode, and
/// the due scope, with the base view and search text given. So a task passes the
/// saved priority, project and tag conditions exactly when it passes the panel's.
pub proof fn lemma_saved_filter_keeps_panel(
    live: LiveFilter,
    base_view: Option<SavedBaseView>,
    query: Seq<char>,
    offset: UtcOffset,
    t: TaskView,
)
    ensures
        ({
            let f = filter_of_panel(live, base_view, query, offset);
            &&& f.statuses == live.statuses@
            &&& f.priorities == live.priorities@
            &&& f.project_ids == live.projects@
            &&& f.unassigned_project == live.unassigned_project
            &&& f.tag_ids == live.tags@
            &&& f.match_all_tags == live.match_all_tags
            &&& f.due_scope == live.due
            &&& f.base_view == base_view
            &&& f.query == query
            &&& !f.include_archived
            &&& !f.only_deleted
            &&& (priority_filter_matches(f.priorities, t.priority) <==> (live.priorities@.len() == 0
                || live.priorities@.contains(t.priority)))
            &&& (live.priorities@.len() > 0 && !live.priorities@.contains(t.priority) ==> !priority_filter_matches(
                f.priorities,
                t.priority,
            ))
            &&& (live.due_from is None ==> f.due_from is None)
            &&& (live.due_to is None ==> f.due_to is None)
        }),
{
}

/// Midnight of a boundary date at `offset`, when the library keeps that instant.
pub open spec fn boundary_instant(date: Option<CivilDate>, offset: UtcOffset) -> Option<Timestamp> {
    match date {
        Some(d) => {
            let n = instant_of_local(d, 0, 0, offset);
            if MIN_INSTANT_NANOS <= n <= MAX_INSTANT_NANOS {
                Some(Timestamp { nanos: n as i128 })
            } else {
                None
            }
        },
        None => None,
    }
}

fn boundary(date: Option<CivilDate>, offset: &UtcOffset) -> (r: Option<Timestamp>)
    requires
        date matches Some(d) ==> d.wf(),
        offset.wf(),
    ensures
        r == boundary_instant(date, *offset),
{
    match date {
        Some(d) => date_to_filter_datetime(&d, offset),
        None => None,
    }
}

/// The saved filter for the current panel.
pub fn panel_filter(live: &LiveFilter, base_view: Option<SavedBaseView>, query: &str, offset: &UtcOffset) -> (r: TaskFilter)
    requires
        live.wf(),
        offset.wf(),
    ensures
        r@ == filter_of_panel(*live, base_view, query@, *offset),
        r.wf(),
{
    TaskFilter {
        base_view,
        query: String::from_str(query),
        statuses: copied(&live.statuses),
        priorities: copied(&live.priorities),
        project_ids: copied(&live.projects),
        unassigned_project: live.unassigned_project,
        tag_ids: copied(&live.tags),
        match_all_tags: live.match_all_tags,
        due_scope: live.due,
        due_from: boundary(live.due_from, offset),
        due_to: boundary(live.due_to, offset),
        include_archived: false,
        only_deleted: false,
    }
}

/// A new saved view of the current list: the name is checked
/// as `validate_new_view_name` does; the view gets a fresh identifier, the current
/// layout, panel, search text, sort and grouping, and comes after the other views.
pub fn new_saved_view(
    name: &str,
    view_kind: ViewKind,
    live: &LiveFilter,
    base_view: Option<SavedBaseView>,
    query: &str,
    sort: &Vec<SortSpec>,
    group_by: Option<GroupBy>,
    saved_views: &Vec<SavedView>,
    now: Timestamp,
    offset: &UtcOffset,
) -> (r: Result<SavedView, String>)
    requires
        live.wf(),
        offset.wf(),
        saved_views.len() <= i64::MAX,
    ensures
        trimmed(name@).len() == 0 || name@.len() > 100 ==> (r matches Err(m) && m@ == view_name_length_error()),
        !(trimmed(name@).len() == 0 || name@.len() > 100) && name_taken(saved_views@, trimmed(name@), None) ==> (r matches Err(m) && m@
            == view_name_taken_error()),
        !(trimmed(name@).len() == 0 || name@.len() > 100) && !name_taken(saved_views@, trimmed(name@), None) ==> (r matches Ok(v) && {
            &&& v.name@ == trimmed(name@)
            &&& v.view_kind == view_kind
            &&& v.filter@ == filter_of_panel(*live, base_view, query@, *offset)
            &&& v.filter.statuses@ == live.statuses@
            &&& v.filter.priorities@ == live.priorities@
            &&& v.filter.project_ids@ == live.projects@
            &&& v.filter.unassigned_project == live.unassigned_project
            &&& v.filter.tag_ids@ == live.tags@
            &&& v.filter.match_all_tags == live.match_all_tags
            &&& v.filter.due_scope == live.due
            &&& v.filter.wf()
            &&& v.sort@ == sort@
            &&& v.group_by == group_by
            &&& v.sort_order == saved_views.len()
            &&& v.created_at == now
            &&& v.updated_at == now
        }),
{
    let valid = validate_new_view_name(name, saved_views)?;
    Ok(SavedView {
        id: SavedViewId::new(),
        name: valid,
        view_kind,
        filter: panel_filter(live, base_view, query, offset),
        sort: copied(sort),
        group_by,
        sort_order: saved_views.len() as i64,
        created_at: now,
        updated_at: now,
    })
}

/// Updates the active saved view `id` to the current list:
/// a blank name keeps the old one, otherwise it is checked as
/// `validate_renamed_view_name` does. The base view, identifier, rank and creation
/// time stay; the rest becomes the current layout, panel, search text, sort and
/// grouping, updated at `now`. The result is the position of the updated view (the
/// caller keeps a copy of it to put back when storing the update fails); none when no
/// saved view has the identifier.
pub fn update_saved_view(
    saved_views: &mut Vec<SavedView>,
    id: SavedViewId,
    name: &str,
    view_kind: ViewKind,
    live: &LiveFilter,
    query: &str,
    sort: &Vec<SortSpec>,
    group_by: Option<GroupBy>,
    now: Timestamp,
    offset: &UtcOffset,
) -> (r: Result<Option<usize>, String>)
    requires
        live.wf(),
        offset.wf(),
    ensures
        trimmed(name@).len() > 100 ==> (r matches Err(m) && m@ == view_name_length_error()) && final(saved_views)@
            == old(saved_views)@,
        0 < trimmed(name@).len() <= 100 && name_taken(old(saved_views)@, trimmed(name@), Some(id)) ==> (r matches Err(m)
            && m@ == view_name_taken_error()) && final(saved_views)@ == old(saved_views)@,
        r is Ok ==> ((r matches Ok(Some(_))) <==> exists|i: int| 0 <= i < old(saved_views)@.len() && old(saved_views)@[i].id == id),
        r is Ok && !(exists|i: int| 0 <= i < old(saved_views)@.len() && old(saved_views)@[i].id == id) ==> r == Ok::<
            Option<usize>,
            String,
        >(None) && final(saved_views)@ == old(saved_views)@,
        r matches Ok(Some(i)) ==> {
            let before = old(saved_views)@[i as int];
            let after = final(saved_views)@[i as int];
            &&& i == first_with_id(old(saved_views)@, id)
            &&& final(saved_views)@.len() == old(saved_views)@.len()
            &&& forall|j: int| 0 <= j < old(saved_views)@.len() && j != i ==> final(saved_views)@[j] == old(saved_views)@[j]
            &&& after.id == before.id
            &&& after.name@ == if trimmed(name@).len() == 0 {
                before.name@
            } else {
                trimmed(name@)
            }
            &&& after.view_kind == view_kind
            &&& after.filter@ == filter_of_panel(*live, before.filter.base_view, query@, *offset)
            &&& after.filter.statuses@ == live.statuses@
            &&& after.filter.priorities@ == live.priorities@
            &&& after.filter.project_ids@ == live.projects@
            &&& after.filter.unassigned_project == live.unassigned_project
            &&& after.filter.tag_ids@ == live.tags@
            &&& after.filter.match_all_tags == live.match_all_tags
            &&& after.filter.due_scope == live.due
            &&& after.filter.wf()
            &&& after.sort@ == sort@
            &&& after.group_by == group_by
            &&& after.sort_order == before.sort_order
            &&& after.created_at == before.created_at
            &&& after.updated_at == now
        },
        trimmed(name@).len() <= 100 && !(0 < trimmed(name@).len() && name_taken(old(saved_views)@, trimmed(name@), Some(id)))
            ==> r is Ok,
{
    let renamed = validate_renamed_view_name(name, id, saved_views)?;
    let index = match crate::views::find_saved_view(saved_views, id) {
        Some(i) => i,
        None => return Ok(None),
    };
    let old_view = &saved_views[index];
    let new_name = match renamed {
        Some(n) => n,
        None => old_view.name.clone(),
    };
    let updated = SavedView {
        id: old_view.id,
        name: new_name,
        view_kind,
        filter: panel_filter(live, old_view.filter.base_view, query, offset),
        sort: copied(sort),
        group_by,
        sort_order: old_view.sort_order,
        created_at: old_view.created_at,
        updated_at: now,
    };
    saved_views.set(index, updated);
    Ok(Some(index))
}

/// Removes every saved view with identifier `id`; an active view that was one of
/// them falls back to All.
pub fn delete_saved_view(saved_views: &mut Vec<SavedView>, id: SavedViewId, active: &mut SmartView)
    ensures
        final(saved_views)@ == old(saved_views)@.filter(|v: SavedView| v.id != id),
        *old(active) == SmartView::Saved(id) ==> *final(active) == SmartView::All,
        *old(active) != SmartView::Saved(id) ==> *final(active) == *old(active),
{
    let ghost src = saved_views@;
    let ghost pred = |v: SavedView| v.id != id;
    let mut kept: Vec<SavedView> = Vec::new();
    let mut rest: Vec<SavedView> = Vec::new();
    std::mem::swap(&mut rest, saved_views);
    while rest.len() > 0
        invariant
            src == src.subrange(0, src.len() - rest@.len()) + rest@,
            rest@.len() <= src.len(),
            rest@ == src.subrange(src.len() - rest@.len(), src.len() as int),
            pred == (|v: SavedView| v.id != id),
            kept@ == src.subrange(0, src.len() - rest@.len()).filter(pred),
        decreases rest.len(),
    {
        let ghost done = src.len() - rest@.len();
        let v = rest.remove(0);
        proof {
            assert(src[done] == v);
            assert(src.subrange(0, done + 1) == src.subrange(0, done).push(v));
            reveal(Seq::filter);
            assert(src.subrange(0, done + 1).drop_last() == src.subrange(0, done));
            assert(rest@ == src.subrange(src.len() - rest@.len(), src.len() as int));
        }
        if v.id != id {
            kept.push(v);
        }
    }
    proof {
        assert(src.subrange(0, src.len() as int) == src);
    }
    *saved_views = kept;
    if *active == SmartView::Saved(id) {
        *active = SmartView::All;
    }
}

} // verus!
