//! The task list on screen: the live filter panel, the active view, which tasks are
//! visible and in what order.
use vstd::prelude::*;
use vstd::string::StringExecFns;

use crate::calendar::{CivilDate, Timestamp, UtcOffset, date_at, date_of_day, local_day};
use crate::due::{
    due_date_at, due_day, due_is_overdue, due_is_today, due_is_upcoming, due_overdue, due_today,
    due_upcoming,
};
use crate::catalog::{Project, find_project, first_project, has_project};
use crate::history::{first_index, has_id, position_of};
use crate::ids::{ProjectId, TagId, TaskId};
use crate::query::{
    DueScope, FilterView, GroupBy, SavedView, SortSpec, TaskQuery, ViewKind, contains_priority,
    contains_project, contains_status, contains_tag, filter_matches, priority_filter_matches,
    scope_matches, scope_ok, text_matches, text_query_matches,
};
use crate::due::{date_text, date_text_string};
use crate::sorting::{
    high_first, is_index_permutation, is_rearrangement, labels_ordered, neighbours_sorted,
    prioritize_list_tasks, sort_tasks, stable_label_order, views,
};
use crate::task::{Due, Task, TaskStatus, TaskView, priority_label, status_label};
use crate::text::{
    all_digits, append_chars, append_str, ascii_lower_text, chars_of, contains_text, decimal,
    decimal_chars, digits_value, is_ascii_text, is_digit, lemma_decimal_digits, lemma_decimal_len,
    lowercase_chars, lowercased, occurs_at, same_text, trim_end, trim_start, white_space,
};
use crate::task::title_is_valid;
use crate::views::{SmartView, find_saved_view, first_with_id};

use crate::seqs::lemma_filter_push;

verus! {

/// The conditions of the filter panel, which apply on top of the active view.
#[derive(Clone, Debug)]
pub struct LiveFilter {
    pub statuses: Vec<TaskStatus>,
    pub priorities: Vec<crate::task::Priority>,
    pub projects: Vec<ProjectId>,
    pub unassigned_project: bool,
    pub tags: Vec<TagId>,
    pub match_all_tags: bool,
    pub due: DueScope,
    pub due_from: Option<CivilDate>,
    pub due_to: Option<CivilDate>,
}

impl LiveFilter {
    pub open spec fn wf(self) -> bool {
        &&& (self.due_from matches Some(d) ==> d.wf())
        &&& (self.due_to matches Some(d) ==> d.wf())
    }

    /// The filter panel with nothing chosen.
    pub fn cleared() -> (r: LiveFilter)
        ensures
            r.wf(),
            r.statuses@.len() == 0,
            r.priorities@.len() == 0,
            r.projects@.len() == 0,
            !r.unassigned_project,
            r.tags@.len() == 0,
            !r.match_all_tags,
            r.due == DueScope::Any,
            r.due_from is None,
            r.due_to is None,
    {
        LiveFilter {
            statuses: Vec::new(),
            priorities: Vec::new(),
            projects: Vec::new(),
            unassigned_project: false,
            tags: Vec::new(),
            match_all_tags: false,
            due: DueScope::Any,
            due_from: None,
            due_to: None,
        }
    }
}

/// The task's project is chosen, or it has none and unassigned tasks are chosen,
/// or no project condition is set.
pub open spec fn live_project_matches(t: TaskView, f: LiveFilter) -> bool {
    (f.projects@.len() == 0 && !f.unassigned_project) || match t.project_id {
        None => f.unassigned_project,
        Some(id) => f.projects@.contains(id),
    }
}

/// No tag is chosen, or the task carries all (or any) of the chosen tags.
pub open spec fn live_tags_match(t: TaskView, f: LiveFilter) -> bool {
    f.tags@.len() == 0 || if f.match_all_tags {
        forall|i: int| 0 <= i < f.tags@.len() ==> t.tag_ids.contains(#[trigger] f.tags@[i])
    } else {
        exists|i: int| 0 <= i < f.tags@.len() && t.tag_ids.contains(#[trigger] f.tags@[i])
    }
}

/// What the smart views show: the trash shows exactly the deleted tasks, and no
/// other smart view shows a deleted task; the archive shows exactly the archived
/// tasks that are not deleted, and no other smart view shows an archived task;
/// Doing, Blocked and Done show the tasks of that status; Today, Upcoming and
/// Undated go by the due date; Overdue leaves out done tasks; All shows every task
/// that is neither deleted nor archived.
pub proof fn lemma_smart_views(
    t: TaskView,
    saved: Option<FilterView>,
    now: Timestamp,
    today: CivilDate,
    offset: UtcOffset,
)
    ensures
        view_matches(t, SmartView::Trash, saved, now, today, offset) <==> t.deleted_at is Some,
        view_matches(t, SmartView::Archived, saved, now, today, offset) <==> (t.deleted_at is None && t.status
            == TaskStatus::Archived),
        view_matches(t, SmartView::All, saved, now, today, offset) <==> (t.deleted_at is None && t.status
            != TaskStatus::Archived),
        forall|v: SmartView|
            v != SmartView::Trash && !(v is Saved) && #[trigger] view_matches(t, v, saved, now, today, offset)
                ==> t.deleted_at is None,
        forall|v: SmartView|
            v != SmartView::Archived && v != SmartView::Trash && !(v is Saved) && #[trigger] view_matches(
                t,
                v,
                saved,
                now,
                today,
                offset,
            ) ==> t.status != TaskStatus::Archived,
        view_matches(t, SmartView::Done, saved, now, today, offset) ==> t.status == TaskStatus::Done,
        view_matches(t, SmartView::Doing, saved, now, today, offset) ==> t.status == TaskStatus::Doing,
        view_matches(t, SmartView::Blocked, saved, now, today, offset) ==> t.status == TaskStatus::Blocked,
        view_matches(t, SmartView::Today, saved, now, today, offset) ==> due_today(t.due, today, offset),
        view_matches(t, SmartView::Upcoming, saved, now, today, offset) ==> due_upcoming(t.due, today, offset),
        view_matches(t, SmartView::Undated, saved, now, today, offset) ==> t.due is Unset,
        view_matches(t, SmartView::Overdue, saved, now, today, offset) ==> t.status != TaskStatus::Done
            && due_overdue(t.due, now, today),
{
    reveal(view_matches);
    assert forall|v: SmartView|
        v != SmartView::Trash && !(v is Saved) && #[trigger] view_matches(t, v, saved, now, today, offset) implies t.deleted_at
            is None by {
        match v {
            SmartView::Trash => {},
            SmartView::Saved(_) => {},
            _ => {},
        }
    }
    assert forall|v: SmartView|
        v != SmartView::Archived && v != SmartView::Trash && !(v is Saved) && #[trigger] view_matches(
            t,
            v,
            saved,
            now,
            today,
            offset,
        ) implies t.status != TaskStatus::Archived by {
        match v {
            SmartView::Trash => {},
            SmartView::Saved(_) => {},
            _ => {},
        }
    }
}

/// The two tag modes of the filter panel. With "all tags", a task passes only when
/// it carries every chosen tag; with "any tag", one chosen tag it carries suffices
/// and a task carrying none of them fails. A task carrying every chosen tag passes in
/// either mode, and a task that passes in "all tags" mode passes in "any tag" mode.
pub proof fn lemma_tag_modes(t: TaskView, f: LiveFilter)
    ensures
        f.match_all_tags && live_tags_match(t, f) ==> forall|i: int|
            0 <= i < f.tags@.len() ==> t.tag_ids.contains(#[trigger] f.tags@[i]),
        (forall|i: int| 0 <= i < f.tags@.len() ==> t.tag_ids.contains(#[trigger] f.tags@[i])) ==> live_tags_match(t, f),
        !f.match_all_tags ==> ((exists|i: int| 0 <= i < f.tags@.len() && t.tag_ids.contains(#[trigger] f.tags@[i]))
            ==> live_tags_match(t, f)),
        !f.match_all_tags && f.tags@.len() > 0 && live_tags_match(t, f) ==> exists|i: int|
            0 <= i < f.tags@.len() && t.tag_ids.contains(#[trigger] f.tags@[i]),
        f.tags@.len() == 0 ==> live_tags_match(t, f),
        live_tags_match(t, (LiveFilter { match_all_tags: true, ..f })) ==> live_tags_match(
            t,
            (LiveFilter { match_all_tags: false, ..f }),
        ),
{
    let all = LiveFilter { match_all_tags: true, ..f };
    if all.tags@.len() > 0 && live_tags_match(t, all) {
        assert(t.tag_ids.contains(all.tags@[0]));
    }
    if f.tags@.len() > 0 && !f.match_all_tags && forall|i: int| 0 <= i < f.tags@.len() ==> t.tag_ids.contains(#[trigger] f.tags@[i]) {
        assert(t.tag_ids.contains(f.tags@[0]));
    }
}

/// What passing the filter panel means for a task: it contains the search text in
/// its lowercased title or memo; its status is chosen, if any status is; its
/// priority is chosen, if any priority is; its project is chosen (or it has none and
/// unassigned tasks are chosen), if any project condition is set; its tags satisfy
/// the tag mode; it is in the chosen due scope (an overdue task is not done); and its
/// due day lies within the chosen range. A task meeting all of these passes.
pub proof fn lemma_live_filter_conditions(
    t: TaskView,
    f: LiveFilter,
    q: Seq<char>,
    now: Timestamp,
    today: CivilDate,
    offset: UtcOffset,
)
    ensures
        live_matches(t, f, q, now, today, offset) ==> {
            &&& q.len() == 0 || contains_text(lowercased(t.title), q) || contains_text(lowercased(t.memo), q)
            &&& f.statuses@.len() > 0 ==> f.statuses@.contains(t.status)
            &&& f.priorities@.len() > 0 ==> f.priorities@.contains(t.priority)
            &&& (t.project_id is Some && (f.projects@.len() > 0 || f.unassigned_project)) ==> f.projects@.contains(t.project_id->Some_0)
            &&& (t.project_id is None && f.projects@.len() > 0) ==> f.unassigned_project
            &&& live_tags_match(t, f)
            &&& f.due == DueScope::Undated ==> t.due is Unset
            &&& f.due == DueScope::Today ==> due_today(t.due, today, offset)
            &&& f.due == DueScope::Upcoming ==> due_upcoming(t.due, today, offset)
            &&& f.due == DueScope::Overdue ==> t.status != TaskStatus::Done && due_overdue(t.due, now, today)
            &&& f.due_from is Some ==> (due_day(t.due, offset) is Some && due_day(t.due, offset)->Some_0 >= f.due_from->Some_0.days())
            &&& f.due_to is Some ==> (due_day(t.due, offset) is Some && due_day(t.due, offset)->Some_0 <= f.due_to->Some_0.days())
        },
        ({
            &&& q.len() == 0 || contains_text(lowercased(t.title), q) || contains_text(lowercased(t.memo), q)
            &&& f.statuses@.len() == 0 || f.statuses@.contains(t.status)
            &&& f.priorities@.len() == 0 || f.priorities@.contains(t.priority)
            &&& live_project_matches(t, f)
            &&& live_tags_match(t, f)
            &&& scope_matches(t, f.due, now, today, offset)
            &&& live_range_matches(t, f, offset)
        }) ==> live_matches(t, f, q, now, today, offset),
{
    reveal(live_matches);
}

/// A task carrying some but not all of the chosen tags passes in "any tag" mode and
/// fails in "all tags" mode.
pub proof fn lemma_tag_modes_differ(t: TaskView, f: LiveFilter, carried: int, missing: int)
    requires
        0 <= carried < f.tags@.len(),
        0 <= missing < f.tags@.len(),
        t.tag_ids.contains(f.tags@[carried]),
        !t.tag_ids.contains(f.tags@[missing]),
    ensures
        f.match_all_tags ==> !live_tags_match(t, f),
        !f.match_all_tags ==> live_tags_match(t, f),
{
}

/// The task's due day is on or after `due_from` and on or before `due_to`, where
/// those are set; a task without a due date fails either bound.
pub open spec fn live_range_matches(t: TaskView, f: LiveFilter, offset: UtcOffset) -> bool {
    &&& (f.due_from matches Some(from) ==> (due_day(t.due, offset) matches Some(n) && n >= from.days()))
    &&& (f.due_to matches Some(to) ==> (due_day(t.due, offset) matches Some(n) && n <= to.days()))
}

/// The task passes the search text `q` (already lowercased) and the filter panel.
#[verifier::opaque]
pub open spec fn live_matches(
    t: TaskView,
    f: LiveFilter,
    q: Seq<char>,
    now: Timestamp,
    today: CivilDate,
    offset: UtcOffset,
) -> bool {
    &&& text_matches(t, q)
    &&& (f.statuses@.len() == 0 || f.statuses@.contains(t.status))
    &&& priority_filter_matches(f.priorities@, t.priority)
    &&& live_project_matches(t, f)
    &&& live_tags_match(t, f)
    &&& scope_matches(t, f.due, now, today, offset)
    &&& live_range_matches(t, f, offset)
}

/// The filter of the saved view that `view` opens, if it is a saved view that still
/// exists.
#[verifier::opaque]
pub open spec fn saved_filter_of(view: SmartView, saved: Seq<SavedView>) -> Option<FilterView> {
    match view {
        SmartView::Saved(id) => if exists|i: int| 0 <= i < saved.len() && saved[i].id == id {
            Some(saved[first_with_id(saved, id)].filter@)
        } else {
            None
        },
        _ => None,
    }
}

/// The task belongs to the active view. The trash shows deleted tasks only; a saved
/// view shows what its filter keeps (nothing when it is gone); every other view hides
/// deleted tasks, and all but the archive hide archived ones.
#[verifier::opaque]
pub open spec fn view_matches(
    t: TaskView,
    view: SmartView,
    saved: Option<FilterView>,
    now: Timestamp,
    today: CivilDate,
    offset: UtcOffset,
) -> bool {
    match view {
        SmartView::Trash => t.deleted_at is Some,
        SmartView::Saved(_) => saved matches Some(f) && filter_matches(t, f, now, today, offset),
        _ => if t.deleted_at is Some {
            false
        } else if view == SmartView::Archived {
            t.status == TaskStatus::Archived
        } else if t.status == TaskStatus::Archived {
            false
        } else {
            match view {
                SmartView::Today => due_today(t.due, today, offset),
                SmartView::Upcoming => due_upcoming(t.due, today, offset),
                SmartView::Overdue => due_overdue(t.due, now, today) && t.status != TaskStatus::Done,
                SmartView::Undated => t.due is Unset,
                SmartView::Doing => t.status == TaskStatus::Doing,
                SmartView::Blocked => t.status == TaskStatus::Blocked,
                SmartView::Done => t.status == TaskStatus::Done,
                _ => true,
            }
        },
    }
}

/// The task passes the search, the filter panel and the active view.
pub open spec fn shown(
    t: TaskView,
    f: LiveFilter,
    q: Seq<char>,
    view: SmartView,
    saved: Option<FilterView>,
    now: Timestamp,
    today: CivilDate,
    offset: UtcOffset,
) -> bool {
    live_matches(t, f, q, now, today, offset) && view_matches(t, view, saved, now, today, offset)
}

/// The tasks shown: those that pass the search, the filter panel and the view, in
/// their stored order.
pub open spec fn shown_tasks(
    tasks: Seq<TaskView>,
    f: LiveFilter,
    q: Seq<char>,
    view: SmartView,
    saved: Option<FilterView>,
    now: Timestamp,
    today: CivilDate,
    offset: UtcOffset,
) -> Seq<TaskView> {
    tasks.filter(|t: TaskView| shown(t, f, q, view, saved, now, today, offset))
}

fn tags_match(t: &Task, f: &LiveFilter) -> (r: bool)
    ensures
        r == live_tags_match(t@, *f),
{
    if f.tags.len() == 0 {
        return true;
    }
    let mut i: usize = 0;
    if f.match_all_tags {
        while i < f.tags.len()
            invariant
                i <= f.tags.len(),
                f.match_all_tags,
                f.tags.len() > 0,
                forall|j: int| 0 <= j < i ==> t.tag_ids@.contains(#[trigger] f.tags@[j]),
            decreases f.tags.len() - i,
        {
            if !contains_tag(&t.tag_ids, f.tags[i]) {
                assert(!t.tag_ids@.contains(f.tags@[i as int]));
                return false;
            }
            i = i + 1;
        }
        true
    } else {
        while i < f.tags.len()
            invariant
                i <= f.tags.len(),
                !f.match_all_tags,
                f.tags.len() > 0,
                forall|j: int| 0 <= j < i ==> !t.tag_ids@.contains(#[trigger] f.tags@[j]),
            decreases f.tags.len() - i,
        {
            if contains_tag(&t.tag_ids, f.tags[i]) {
                assert(t.tag_ids@.contains(f.tags@[i as int]));
                return true;
            }
            i = i + 1;
        }
        false
    }
}

fn range_ok(t: &Task, f: &LiveFilter, offset: &UtcOffset) -> (r: bool)
    requires
        t.wf(),
        f.wf(),
        offset.wf(),
    ensures
        r == live_range_matches(t@, *f, *offset),
{
    let date = due_date_at(&t.due, offset);
    let day: Option<i32> = match date {
        None => None,
        Some(d) => Some(d.day_number()),
    };
    if let Some(from) = f.due_from {
        match day {
            None => return false,
            Some(n) => {
                if n < from.day_number() {
                    return false;
                }
            },
        }
    }
    if let Some(to) = f.due_to {
        match day {
            None => return false,
            Some(n) => {
                if n > to.day_number() {
                    return false;
                }
            },
        }
    }
    true
}

/// Whether `t` passes the lowercased search text `q` and the filter panel `f`.
pub fn live_filter_matches(
    t: &Task,
    f: &LiveFilter,
    q: &Vec<char>,
    now: &Timestamp,
    today: &CivilDate,
    offset: &UtcOffset,
) -> (r: bool)
    requires
        t.wf(),
        f.wf(),
        today.wf(),
        offset.wf(),
    ensures
        r == live_matches(t@, *f, q@, *now, *today, *offset),
{
    reveal(live_matches);
    if !text_query_matches(t, q) {
        return false;
    }
    if f.statuses.len() > 0 && !contains_status(&f.statuses, t.status) {
        return false;
    }
    if f.priorities.len() > 0 && !contains_priority(&f.priorities, t.priority) {
        return false;
    }
    let project_active = f.projects.len() > 0 || f.unassigned_project;
    let project_ok = match t.project_id {
        None => f.unassigned_project,
        Some(id) => contains_project(&f.projects, id),
    };
    if project_active && !project_ok {
        return false;
    }
    if !tags_match(t, f) {
        return false;
    }
    if !scope_ok(t, f.due, now, today, offset) {
        return false;
    }
    range_ok(t, f, offset)
}

/// Whether `t` belongs to the active view `view`; `saved` is the prepared filter of
/// the saved view it opens, if that view exists.
pub fn active_view_matches(
    t: &Task,
    view: SmartView,
    saved: &Option<TaskQuery>,
    now: &Timestamp,
    today: &CivilDate,
    offset: &UtcOffset,
) -> (r: bool)
    requires
        t.wf(),
        today.wf(),
        offset.wf(),
        saved matches Some(q) ==> q.wf() && q.now == *now && q.today == *today && q.offset == *offset,
    ensures
        r == view_matches(
            t@,
            view,
            match saved {
                Some(q) => Some(q.filter@),
                None => None,
            },
            *now,
            *today,
            *offset,
        ),
{
    reveal(view_matches);
    match view {
        SmartView::Trash => return t.deleted_at.is_some(),
        SmartView::Saved(_) => {
            return match saved {
                Some(q) => q.matches(t),
                None => false,
            };
        },
        _ => {},
    }
    if t.deleted_at.is_some() {
        return false;
    }
    if view == SmartView::Archived {
        return t.status == TaskStatus::Archived;
    }
    if t.status == TaskStatus::Archived {
        return false;
    }
    match view {
        SmartView::Today => due_is_today(&t.due, today, offset),
        SmartView::Upcoming => due_is_upcoming(&t.due, today, offset),
        SmartView::Overdue => due_is_overdue(&t.due, now, today) && t.status != TaskStatus::Done,
        SmartView::Undated => t.due == Due::Unset,
        SmartView::Doing => t.status == TaskStatus::Doing,
        SmartView::Blocked => t.status == TaskStatus::Blocked,
        SmartView::Done => t.status == TaskStatus::Done,
        _ => true,
    }
}

/// The prepared filter of the saved view that `view` opens, if it still exists.
fn prepare_saved_query<'a>(
    view: SmartView,
    saved_views: &'a Vec<SavedView>,
    now: Timestamp,
    offset: UtcOffset,
) -> (r: Option<TaskQuery<'a>>)
    requires
        forall|i: int| 0 <= i < saved_views.len() ==> (#[trigger] saved_views@[i]).filter.wf(),
        now.wf(),
        offset.wf(),
    ensures
        r matches Some(q) ==> q.wf() && q.now == now && q.offset == offset,
        saved_filter_of(view, saved_views@) == match r {
            Some(q) => Some(q.filter@),
            None => None::<FilterView>,
        },
{
    reveal(saved_filter_of);
    match view {
        SmartView::Saved(id) => match find_saved_view(saved_views, id) {
            Some(i) => Some(TaskQuery::new(&saved_views[i].filter, now, offset)),
            None => None,
        },
        _ => None,
    }
}

fn keep_shown(
    tasks: &Vec<Task>,
    live: &LiveFilter,
    q: &Vec<char>,
    view: SmartView,
    saved: &Option<TaskQuery>,
    Ghost(sf): Ghost<Option<FilterView>>,
    now: Timestamp,
    today: CivilDate,
    offset: UtcOffset,
) -> (r: Vec<Task>)
    requires
        forall|i: int| 0 <= i < tasks.len() ==> (#[trigger] tasks@[i]).wf(),
        live.wf(),
        today.wf(),
        offset.wf(),
        saved matches Some(x) ==> x.wf() && x.now == now && x.today == today && x.offset == offset,
        sf == match saved {
            Some(x) => Some(x.filter@),
            None => None::<FilterView>,
        },
    ensures
        views(r@) == shown_tasks(views(tasks@), *live, q@, view, sf, now, today, offset),
        forall|i: int| 0 <= i < r.len() ==> (#[trigger] r@[i]).wf(),
{
    let ghost pred = |t: TaskView| shown(t, *live, q@, view, sf, now, today, offset);
    let ghost src = views(tasks@);
    let mut out: Vec<Task> = Vec::new();
    let mut i: usize = 0;
    while i < tasks.len()
        invariant
            i <= tasks.len(),
            src == views(tasks@),
            forall|j: int| 0 <= j < tasks.len() ==> (#[trigger] tasks@[j]).wf(),
            forall|j: int| 0 <= j < out.len() ==> (#[trigger] out@[j]).wf(),
            live.wf(),
            today.wf(),
            offset.wf(),
            saved matches Some(x) ==> x.wf() && x.now == now && x.today == today && x.offset == offset,
            sf == match saved {
                Some(x) => Some(x.filter@),
                None => None::<FilterView>,
            },
            pred == (|t: TaskView| shown(t, *live, q@, view, sf, now, today, offset)),
            views(out@) == src.subrange(0, i as int).filter(pred),
        decreases tasks.len() - i,
    {
        let ghost v = tasks@[i as int]@;
        proof {
            assert(src[i as int] == v);
            assert(src.subrange(0, i + 1) == src.subrange(0, i as int).push(v));
            lemma_filter_push(src.subrange(0, i as int), pred, v);
        }
        let keep = live_filter_matches(&tasks[i], live, q, &now, &today, &offset)
            && active_view_matches(&tasks[i], view, saved, &now, &today, &offset);
        proof {
            assert(keep == pred(v));
        }
        if keep {
            let ghost before = out@;
            out.push(tasks[i].copy());
            proof {
                assert(views(out@) =~= views(before).push(v));
            }
        }
        i = i + 1;
    }
    proof {
        assert(src.subrange(0, src.len() as int) == src);
        assert(src.filter(pred) == shown_tasks(src, *live, q@, view, sf, now, today, offset));
    }
    out
}

/// The tasks of `tasks` that pass the search text `search`, the filter panel and the
/// active view, in their stored order, at `now` for a user at `offset`.
#[verifier::spinoff_prover]
#[verifier::rlimit(40)]
pub fn filter_visible_tasks(
    tasks: &Vec<Task>,
    search: &str,
    live: &LiveFilter,
    view: SmartView,
    saved_views: &Vec<SavedView>,
    now: Timestamp,
    offset: UtcOffset,
) -> (r: Vec<Task>)
    requires
        forall|i: int| 0 <= i < tasks.len() ==> (#[trigger] tasks@[i]).wf(),
        forall|i: int| 0 <= i < saved_views.len() ==> (#[trigger] saved_views@[i]).filter.wf(),
        live.wf(),
        now.wf(),
        offset.wf(),
    ensures
        views(r@) == shown_tasks(
            views(tasks@),
            *live,
            lowercased(search@),
            view,
            saved_filter_of(view, saved_views@),
            now,
            date_of_day(local_day(now, offset)),
            offset,
        ),
        forall|i: int| 0 <= i < r.len() ==> (#[trigger] r@[i]).wf(),
{
    let q = lowercase_chars(search);
    let today = date_at(&now, &offset);
    let saved = prepare_saved_query(view, saved_views, now, offset);
    let ghost sf = saved_filter_of(view, saved_views@);
    keep_shown(tasks, live, &q, view, &saved, Ghost(sf), now, today, offset)
}

/// The heading of a task's project group: the name of its project, or
/// `プロジェクトなし` when it has none or the project is gone.
pub open spec fn project_heading(t: TaskView, projects: Seq<Project>) -> Seq<char> {
    match t.project_id {
        Some(id) => if has_project(projects, id) {
            projects[first_project(projects, id)].name@
        } else {
            "プロジェクトなし"@
        },
        None => "プロジェクトなし"@,
    }
}

/// The heading of the group of `t` under `group`: its status label, its project
/// heading, `優先度 ` and its priority label, or its due date as `YYYY-MM-DD`
/// (`納期未定` without one; a due instant by its local date at `offset`).
pub open spec fn group_label(t: TaskView, group: GroupBy, projects: Seq<Project>, offset: UtcOffset) -> Seq<char> {
    match group {
        GroupBy::Status => status_label(t.status),
        GroupBy::Project => project_heading(t, projects),
        GroupBy::Priority => "優先度 "@ + priority_label(t.priority),
        GroupBy::Due => match t.due {
            Due::Unset => "納期未定"@,
            Due::Date(d) => date_text(d),
            Due::DateTime(ts) => date_text(date_of_day(local_day(ts, offset))),
        },
    }
}

/// The heading of the group of `task` under `group`.
pub fn task_group_label(task: &Task, group: GroupBy, projects: &Vec<Project>, offset: &UtcOffset) -> (r: String)
    requires
        task.wf(),
        offset.wf(),
    ensures
        r@ == group_label(task@, group, projects@, *offset),
{
    match group {
        GroupBy::Status => task.status.label(),
        GroupBy::Project => match task.project_id {
            Some(id) => match find_project(projects, id) {
                Some(i) => projects[i].name.clone(),
                None => String::from_str("プロジェクトなし"),
            },
            None => String::from_str("プロジェクトなし"),
        },
        GroupBy::Priority => {
            let mut s = String::from_str("優先度 ");
            let l = task.priority.label();
            append_str(&mut s, l.as_str());
            s
        },
        GroupBy::Due => match task.due {
            Due::Unset => String::from_str("納期未定"),
            Due::Date(d) => date_text_string(&d),
            Due::DateTime(ts) => {
                let d = date_at(&ts, offset);
                date_text_string(&d)
            },
        },
    }
}

/// The labels of `tasks`, position by position.
fn group_labels(tasks: &Vec<Task>, group: GroupBy, projects: &Vec<Project>, offset: &UtcOffset) -> (r: Vec<Vec<char>>)
    requires
        forall|i: int| 0 <= i < tasks.len() ==> (#[trigger] tasks@[i]).wf(),
        offset.wf(),
    ensures
        r.len() == tasks.len(),
        forall|i: int| 0 <= i < r.len() ==> #[trigger] r@[i]@ == group_label(tasks@[i]@, group, projects@, *offset),
{
    let mut out: Vec<Vec<char>> = Vec::new();
    let mut i: usize = 0;
    while i < tasks.len()
        invariant
            i <= tasks.len(),
            out.len() == i,
            offset.wf(),
            forall|j: int| 0 <= j < tasks.len() ==> (#[trigger] tasks@[j]).wf(),
            forall|j: int| 0 <= j < i ==> #[trigger] out@[j]@ == group_label(tasks@[j]@, group, projects@, *offset),
        decreases tasks.len() - i,
    {
        let l = task_group_label(&tasks[i], group, projects, offset);
        out.push(chars_of(l.as_str()));
        i = i + 1;
    }
    out
}

/// The group headings of `s` under `group`, position by position.
pub open spec fn labels_of(s: Seq<TaskView>, group: GroupBy, projects: Seq<Project>, offset: UtcOffset) -> Seq<Seq<char>> {
    s.map_values(|t: TaskView| group_label(t, group, projects, offset))
}

/// `r` is `s` stably sorted by group heading: some permutation `p` of the positions
/// puts the headings in order, ties in their input order.
pub open spec fn grouped_by(
    s: Seq<TaskView>,
    r: Seq<TaskView>,
    group: GroupBy,
    projects: Seq<Project>,
    offset: UtcOffset,
) -> bool {
    exists|p: Seq<usize>|
        #![trigger labels_ordered(labels_of(s, group, projects, offset), p)]
        {
            &&& is_index_permutation(p, s.len() as int)
            &&& labels_ordered(labels_of(s, group, projects, offset), p)
            &&& r.len() == s.len()
            &&& forall|k: int| 0 <= k < r.len() ==> #[trigger] r[k] == s[p[k] as int]
        }
}

/// Orders the list: high priority first, then, when the list is grouped, stably by
/// group heading.
pub fn order_list_tasks(tasks: &mut Vec<Task>, group_by: Option<GroupBy>, projects: &Vec<Project>, offset: &UtcOffset)
    requires
        forall|i: int| 0 <= i < old(tasks).len() ==> (#[trigger] old(tasks)@[i]).wf(),
        offset.wf(),
    ensures
        group_by is None ==> views(final(tasks)@) == high_first(views(old(tasks)@)),
        group_by matches Some(g) ==> grouped_by(high_first(views(old(tasks)@)), views(final(tasks)@), g, projects@, *offset),
        forall|i: int| 0 <= i < final(tasks).len() ==> (#[trigger] final(tasks)@[i]).wf(),
{
    prioritize_list_tasks(tasks);
    if let Some(g) = group_by {
        let ghost s = views(tasks@);
        let labels = group_labels(tasks, g, projects, offset);
        let order = stable_label_order(&labels);
        let ghost ls = labels@.map_values(|l: Vec<char>| l@);
        let mut out: Vec<Task> = Vec::new();
        let mut k: usize = 0;
        while k < order.len()
            invariant
                k <= order.len() == tasks.len() == labels.len(),
                s == views(tasks@),
                is_index_permutation(order@, tasks.len() as int),
                out.len() == k,
                forall|j: int| 0 <= j < k ==> (#[trigger] out@[j])@ == s[order@[j] as int],
                forall|j: int| 0 <= j < tasks.len() ==> (#[trigger] tasks@[j]).wf(),
                forall|j: int| 0 <= j < out.len() ==> (#[trigger] out@[j]).wf(),
            decreases order.len() - k,
        {
            let t = tasks[order[k]].copy();
            out.push(t);
            k = k + 1;
        }
        proof {
            let rv = views(out@);
            assert forall|j: int| 0 <= j < rv.len() implies #[trigger] rv[j] == s[order@[j] as int] by {
                assert(rv[j] == out@[j]@);
            }
            assert(ls =~= labels_of(s, g, projects@, *offset)) by {
                assert forall|j: int| 0 <= j < s.len() implies #[trigger] ls[j] == labels_of(s, g, projects@, *offset)[j] by {
                    assert(ls[j] == labels@[j]@);
                    assert(s[j] == tasks@[j]@);
                }
            }
            assert(labels_ordered(labels_of(s, g, projects@, *offset), order@));
        }
        *tasks = out;
    }
}

/// How a layout arranges the sorted tasks: the list puts high priority first and then
/// groups stably by heading when grouped; the board and the calendar keep the sort.
pub open spec fn laid_out(
    sorted: Seq<TaskView>,
    r: Seq<TaskView>,
    kind: ViewKind,
    group_by: Option<GroupBy>,
    projects: Seq<Project>,
    offset: UtcOffset,
) -> bool {
    if kind == ViewKind::List {
        match group_by {
            None => r == high_first(sorted),
            Some(g) => grouped_by(high_first(sorted), r, g, projects, offset),
        }
    } else {
        r == sorted
    }
}

/// `r` is `shown` sorted by the sort keys and laid out for `kind`.
pub open spec fn arranged(
    shown: Seq<TaskView>,
    r: Seq<TaskView>,
    sort: Seq<SortSpec>,
    kind: ViewKind,
    group_by: Option<GroupBy>,
    projects: Seq<Project>,
    offset: UtcOffset,
) -> bool {
    exists|sorted: Seq<TaskView>|
        #![trigger is_rearrangement(sorted, shown)]
        is_rearrangement(sorted, shown) && neighbours_sorted(sorted, sort, offset) && laid_out(
            sorted,
            r,
            kind,
            group_by,
            projects,
            offset,
        )
}

/// The tasks on screen, in screen order: those that pass the search
/// text, the filter panel and the active view at `now` for a user at `offset`,
/// sorted by the sort keys and laid out for the view kind.
pub fn visible_tasks(
    tasks: &Vec<Task>,
    search: &str,
    live: &LiveFilter,
    view: SmartView,
    saved_views: &Vec<SavedView>,
    sort: &[SortSpec],
    kind: ViewKind,
    group_by: Option<GroupBy>,
    projects: &Vec<Project>,
    now: Timestamp,
    offset: UtcOffset,
) -> (r: Vec<Task>)
    requires
        forall|i: int| 0 <= i < tasks.len() ==> (#[trigger] tasks@[i]).wf(),
        forall|i: int| 0 <= i < saved_views.len() ==> (#[trigger] saved_views@[i]).filter.wf(),
        live.wf(),
        now.wf(),
        offset.wf(),
    ensures
        arranged(
            shown_tasks(
                views(tasks@),
                *live,
                lowercased(search@),
                view,
                saved_filter_of(view, saved_views@),
                now,
                date_of_day(local_day(now, offset)),
                offset,
            ),
            views(r@),
            sort@,
            kind,
            group_by,
            projects@,
            offset,
        ),
        forall|i: int| 0 <= i < r.len() ==> (#[trigger] r@[i]).wf(),
{
    let filtered = filter_visible_tasks(tasks, search, live, view, saved_views, now, offset);
    let mut out = sort_tasks(&filtered, sort, &offset);
    let ghost sorted = views(out@);
    if kind == ViewKind::List {
        order_list_tasks(&mut out, group_by, projects, &offset);
    }
    proof {
        let shown = views(filtered@);
        assert(laid_out(sorted, views(out@), kind, group_by, projects@, offset));
        assert(is_rearrangement(sorted, shown));
        assert(arranged(shown, views(out@), sort@, kind, group_by, projects@, offset));
    }
    out
}

/// The first sort key is the manual order.
pub open spec fn manual_first(sort: Seq<SortSpec>) -> bool {
    sort.len() > 0 && sort[0].field == crate::query::SortField::Manual
}

/// Two neighbouring rows may trade places in the list: the list is sorted by hand
/// first, neither row is in the trash, their ranks differ, both or neither are high
/// priority, and, when grouped, they share a heading.
pub open spec fn reorder_allowed(
    left: TaskView,
    right: TaskView,
    sort: Seq<SortSpec>,
    group_by: Option<GroupBy>,
    projects: Seq<Project>,
    offset: UtcOffset,
) -> bool {
    &&& manual_first(sort)
    &&& left.deleted_at is None
    &&& right.deleted_at is None
    &&& left.sort_order != right.sort_order
    &&& (left.priority == crate::task::Priority::High) == (right.priority == crate::task::Priority::High)
    &&& (group_by matches Some(g) ==> group_label(left, g, projects, offset) == group_label(right, g, projects, offset))
}

/// Whether `left` and `right` may trade places in the list.
pub fn can_reorder_list_pair(
    left: &Task,
    right: &Task,
    sort: &[SortSpec],
    group_by: Option<GroupBy>,
    projects: &Vec<Project>,
    offset: &UtcOffset,
) -> (r: bool)
    requires
        left.wf(),
        right.wf(),
        offset.wf(),
    ensures
        r == reorder_allowed(left@, right@, sort@, group_by, projects@, *offset),
{
    if sort.len() == 0 || sort[0].field != crate::query::SortField::Manual {
        return false;
    }
    if left.deleted_at.is_some() || right.deleted_at.is_some() || left.sort_order == right.sort_order {
        return false;
    }
    if (left.priority == crate::task::Priority::High) != (right.priority == crate::task::Priority::High) {
        return false;
    }
    match group_by {
        None => true,
        Some(g) => {
            let a = task_group_label(left, g, projects, offset);
            let b = task_group_label(right, g, projects, offset);
            same_text(a.as_str(), b.as_str())
        },
    }
}

/// The row that the row at `index` would trade places with when moved one step up
/// (`direction == -1`) or down (`direction == 1`), if the move is allowed.
pub fn list_move_target(
    tasks: &Vec<Task>,
    index: usize,
    direction: i32,
    sort: &[SortSpec],
    group_by: Option<GroupBy>,
    projects: &Vec<Project>,
    offset: &UtcOffset,
) -> (r: Option<usize>)
    requires
        forall|i: int| 0 <= i < tasks.len() ==> (#[trigger] tasks@[i]).wf(),
        offset.wf(),
    ensures
        r matches Some(t) ==> (direction == -1 || direction == 1) && t == index + direction && index < tasks.len()
            && t < tasks.len() && reorder_allowed(tasks@[index as int]@, tasks@[t as int]@, sort@, group_by, projects@, *offset),
        r is None ==> !((direction == -1 || direction == 1) && 0 <= index + direction < tasks.len()
            && index < tasks.len() && reorder_allowed(
            tasks@[index as int]@,
            tasks@[index + direction]@,
            sort@,
            group_by,
            projects@,
            *offset,
        )),
{
    let target: usize = if direction == -1 {
        if index == 0 {
            return None;
        }
        index - 1
    } else if direction == 1 {
        if index >= usize::MAX {
            return None;
        }
        index + 1
    } else {
        return None;
    };
    if target >= tasks.len() || index >= tasks.len() {
        return None;
    }
    if can_reorder_list_pair(&tasks[index], &tasks[target], sort, group_by, projects, offset) {
        Some(target)
    } else {
        None
    }
}

/// A row of the list: a group heading or the task at a position.
#[derive(Clone, Debug, PartialEq, Eq)]
pub enum ListItem {
    Group(String),
    Task(usize),
}

/// The mathematical content of a list row.
pub enum ListItemView {
    Group(Seq<char>),
    Task(int),
}

pub open spec fn item_view(item: ListItem) -> ListItemView {
    match item {
        ListItem::Group(l) => ListItemView::Group(l@),
        ListItem::Task(i) => ListItemView::Task(i as int),
    }
}

/// The rows for the first `n` tasks whose headings are `labels`: without grouping one
/// row per task; with grouping, a heading before each task whose heading differs
/// from the one before it.
pub open spec fn list_rows(labels: Seq<Seq<char>>, grouped: bool, n: int) -> Seq<ListItemView>
    decreases n,
{
    if n <= 0 {
        Seq::empty()
    } else {
        let rest = list_rows(labels, grouped, n - 1);
        let k = n - 1;
        if grouped && (k == 0 || labels[k] != labels[k - 1]) {
            rest.push(ListItemView::Group(labels[k])).push(ListItemView::Task(k))
        } else {
            rest.push(ListItemView::Task(k))
        }
    }
}

/// The rows of the list for `tasks` in screen order.
pub fn list_items(tasks: &Vec<Task>, group_by: Option<GroupBy>, projects: &Vec<Project>, offset: &UtcOffset) -> (r: Vec<ListItem>)
    requires
        forall|i: int| 0 <= i < tasks.len() ==> (#[trigger] tasks@[i]).wf(),
        offset.wf(),
    ensures
        r@.map_values(|x: ListItem| item_view(x)) == list_rows(
            match group_by {
                Some(g) => labels_of(views(tasks@), g, projects@, *offset),
                None => Seq::empty(),
            },
            group_by is Some,
            tasks.len() as int,
        ),
{
    let ghost labels = match group_by {
        Some(g) => labels_of(views(tasks@), g, projects@, *offset),
        None => Seq::<Seq<char>>::empty(),
    };
    let mut items: Vec<ListItem> = Vec::new();
    let mut current: Option<String> = None;
    let mut i: usize = 0;
    while i < tasks.len()
        invariant
            i <= tasks.len(),
            offset.wf(),
            forall|j: int| 0 <= j < tasks.len() ==> (#[trigger] tasks@[j]).wf(),
            labels == match group_by {
                Some(g) => labels_of(views(tasks@), g, projects@, *offset),
                None => Seq::<Seq<char>>::empty(),
            },
            items@.map_values(|x: ListItem| item_view(x)) == list_rows(labels, group_by is Some, i as int),
            group_by is Some && i > 0 ==> (current matches Some(c) && c@ == labels[i - 1]),
            i == 0 ==> current is None,
        decreases tasks.len() - i,
    {
        let ghost before = items@;
        if let Some(g) = group_by {
            let label = task_group_label(&tasks[i], g, projects, offset);
            proof {
                assert(labels[i as int] == label@) by {
                    assert(views(tasks@)[i as int] == tasks@[i as int]@);
                }
            }
            let differs = match &current {
                None => true,
                Some(c) => !same_text(c.as_str(), label.as_str()),
            };
            if differs {
                current = Some(label.clone());
                items.push(ListItem::Group(label));
            }
        }
        let ghost mid = items@;
        items.push(ListItem::Task(i));
        proof {
            let rows = list_rows(labels, group_by is Some, i + 1);
            let prev = list_rows(labels, group_by is Some, i as int);
            assert(before.map_values(|x: ListItem| item_view(x)) == prev);
            if group_by is Some && (i == 0 || labels[i as int] != labels[i - 1]) {
                assert(mid.len() == before.len() + 1);
                assert(item_view(mid[before.len() as int]) == ListItemView::Group(labels[i as int]));
                assert(items@.map_values(|x: ListItem| item_view(x)) =~= prev.push(ListItemView::Group(labels[i as int])).push(
                    ListItemView::Task(i as int),
                ));
            } else {
                assert(mid == before);
                assert(items@.map_values(|x: ListItem| item_view(x)) =~= prev.push(ListItemView::Task(i as int)));
            }
        }
        i = i + 1;
    }
    items
}

/// Whether dropping `dragged` on `target` may swap their ranks:
/// in the list both must be on screen and allowed to trade places; the board and the
/// calendar allow it always.
pub fn drag_swap_allowed(
    kind: ViewKind,
    visible: &Vec<Task>,
    dragged: TaskId,
    target: TaskId,
    sort: &[SortSpec],
    group_by: Option<GroupBy>,
    projects: &Vec<Project>,
    offset: &UtcOffset,
) -> (r: bool)
    requires
        forall|i: int| 0 <= i < visible.len() ==> (#[trigger] visible@[i]).wf(),
        offset.wf(),
    ensures
        kind != ViewKind::List ==> r,
        kind == ViewKind::List ==> r == (has_id(views(visible@), dragged) && has_id(views(visible@), target)
            && reorder_allowed(
            views(visible@)[first_index(views(visible@), dragged)],
            views(visible@)[first_index(views(visible@), target)],
            sort@,
            group_by,
            projects@,
            *offset,
        )),
{
    if kind != ViewKind::List {
        return true;
    }
    let left = match position_of(visible, dragged) {
        Some(i) => i,
        None => return false,
    };
    let right = match position_of(visible, target) {
        Some(i) => i,
        None => return false,
    };
    proof {
        assert(views(visible@)[left as int] == visible@[left as int]@);
        assert(views(visible@)[right as int] == visible@[right as int]@);
    }
    can_reorder_list_pair(&visible[left], &visible[right], sort, group_by, projects, offset)
}

/// The title of the `i`-th task of the search check: `task {i}`.
pub open spec fn numbered_title(i: nat) -> Seq<char> {
    "task "@ + decimal(i)
}

proof fn lemma_numbered_title_valid(i: nat)
    requires
        i < 10000,
    ensures
        title_is_valid(numbered_title(i)),
{
    reveal_strlit("task ");
    let s = numbered_title(i);
    lemma_decimal_len(i);
    lemma_decimal_digits(i);
    let d = decimal(i);
    assert(s[0] == 't');
    assert(!white_space(s[0]));
    assert(trim_start(s) == s);
    assert(s.last() == d.last());
    assert(is_digit(d[d.len() - 1]));
    assert(!white_space(s.last()));
    assert(trim_end(s) == s);
}

proof fn lemma_numbered_title_ascii(i: nat)
    requires
        i < 10000,
    ensures
        is_ascii_text(numbered_title(i)),
        ascii_lower_text(numbered_title(i)) == numbered_title(i),
{
    reveal_strlit("task ");
    let s = numbered_title(i);
    lemma_decimal_digits(i);
    let d = decimal(i);
    assert forall|j: int| 0 <= j < s.len() implies s[j] <= '\u{7f}' && !('A' <= s[j] && s[j] <= 'Z') by {
        if j >= 5 {
            assert(s[j] == d[j - 5]);
            assert(is_digit(d[j - 5]));
        }
    }
    assert(ascii_lower_text(s) =~= s);
}

proof fn lemma_digits_9999()
    ensures
        digits_value(seq!['9', '9', '9', '9']) == 9999,
{
    let s = seq!['9', '9', '9', '9'];
    assert(s.drop_last() =~= seq!['9', '9', '9']);
    assert(s.drop_last().drop_last() =~= seq!['9', '9']);
    assert(s.drop_last().drop_last().drop_last() =~= seq!['9']);
    assert(s.drop_last().drop_last().drop_last().drop_last() =~= Seq::<char>::empty());
    reveal_with_fuel(digits_value, 5);
}

proof fn lemma_decimal_9999()
    ensures
        decimal(9999) == seq!['9', '9', '9', '9'],
{
    assert(digit_char_nine() == '9');
    assert(decimal(9) == seq!['9']);
    assert(decimal(99) == decimal(9).push('9'));
    assert(decimal(999) == decimal(99).push('9'));
    assert(decimal(9999) == decimal(999).push('9'));
    assert(decimal(9999) =~= seq!['9', '9', '9', '9']);
}

spec fn digit_char_nine() -> char {
    crate::text::digit_char(9)
}

proof fn lemma_title_9999()
    ensures
        contains_text(numbered_title(9999), "task 9999"@),
{
    reveal_strlit("task ");
    reveal_strlit("task 9999");
    lemma_decimal_9999();
    let s = numbered_title(9999);
    assert(s =~= "task 9999"@);
    assert(s.subrange(0, 9) =~= s);
    assert(occurs_at(s, "task 9999"@, 0));
}

proof fn lemma_title_digits(i: nat)
    requires
        i < 10000,
        contains_text(numbered_title(i), "task 9999"@),
    ensures
        decimal(i) == seq!['9', '9', '9', '9'],
{
    let q = "task 9999"@;
    let d = decimal(i);
    let s = numbered_title(i);
    assert(q.len() == 9 && q[5] == '9' && q[6] == '9' && q[7] == '9' && q[8] == '9') by {
        reveal_strlit("task 9999");
    }
    assert(s.len() == 5 + d.len()) by {
        reveal_strlit("task ");
    }
    lemma_decimal_len(i);
    let at = choose|at: int| occurs_at(s, q, at);
    assert(occurs_at(s, q, at));
    assert(at == 0 && d.len() == 4);
    let w = s.subrange(0, 9);
    assert(w == q);
    assert forall|j: int| 0 <= j < 4 implies d[j] == '9' by {
        assert(s[j + 5] == d[j]);
        assert(w[j + 5] == s[j + 5]);
        assert(q[j + 5] == '9');
    }
    assert(d =~= seq!['9', '9', '9', '9']);
}

proof fn lemma_title_not_9999(i: nat)
    requires
        i < 9999,
    ensures
        !contains_text(numbered_title(i), "task 9999"@),
{
    if contains_text(numbered_title(i), "task 9999"@) {
        lemma_title_digits(i);
        lemma_decimal_digits(i);
        lemma_digits_9999();
    }
}

/// Of the titles `task 0` to `task 9999`, only `task 9999` contains `task 9999`.
proof fn lemma_numbered_title_matches(i: nat)
    requires
        i < 10000,
    ensures
        contains_text(numbered_title(i), "task 9999"@) <==> i == 9999,
{
    if i == 9999 {
        lemma_title_9999();
    } else {
        lemma_title_not_9999(i);
    }
}

/// The search that the list runs over ten thousand tasks: tasks titled `task 0` to
/// `task 9999` with empty memos, created at 1970-01-01T00:00Z; the tasks whose
/// lowercased title or memo contains `task 9999`, sorted by the default sort key at UTC. Returns both.
pub fn check_ten_thousand_task_visible_search() -> (r: (Vec<Task>, Vec<Task>))
    ensures
        r.0.len() == 10000,
        forall|i: int| 0 <= i < 10000 ==> (#[trigger] r.0@[i]).title@ == numbered_title(i as nat),
        forall|i: int| 0 <= i < 10000 ==> (#[trigger] r.0@[i]).wf(),
        forall|i: int| 0 <= i < 10000 ==> (#[trigger] r.0@[i]).memo@ == Seq::<char>::empty(),
        is_rearrangement(
            views(r.1@),
            views(r.0@).filter(|t: TaskView| text_matches(t, "task 9999"@)),
        ),
        r.1.len() == 1,
        r.1@[0]@ == r.0@[9999]@,
        neighbours_sorted(views(r.1@), seq![SortSpec { field: crate::query::SortField::Manual, direction: crate::query::SortDirection::Ascending }], UtcOffset { seconds: 0 }),
{
    let now = Timestamp::unix_epoch();
    let mut tasks: Vec<Task> = Vec::new();
    let mut i: u64 = 0;
    while i < 10000
        invariant
            i <= 10000,
            tasks.len() == i,
            now.wf(),
            forall|k: int| 0 <= k < i ==> (#[trigger] tasks@[k]).title@ == numbered_title(k as nat),
            forall|k: int| 0 <= k < i ==> (#[trigger] tasks@[k]).wf(),
            forall|k: int| 0 <= k < i ==> (#[trigger] tasks@[k]).memo@ == Seq::<char>::empty(),
            forall|k: int| 0 <= k < i ==> lowercased((#[trigger] tasks@[k]).title@) == tasks@[k].title@,
        decreases 10000 - i,
    {
        let mut title = String::from_str("task ");
        let digits = decimal_chars(i);
        append_chars(&mut title, &digits);
        proof {
            lemma_numbered_title_valid(i as nat);
            lemma_numbered_title_ascii(i as nat);
        }
        // Lowercasing the title once shows that an ASCII title lowercases to itself.
        let _lower = lowercase_chars(title.as_str());
        match Task::new(title.as_str(), now) {
            Ok(t) => tasks.push(t),
            Err(_) => {
                assert(false);
                return (tasks, Vec::new());
            },
        }
        i = i + 1;
    }
    // Likewise for the empty memo.
    let _blank = lowercase_chars("");
    proof {
        reveal_strlit("");
        reveal_strlit("task 9999");
        assert(""@ =~= Seq::<char>::empty());
        assert(is_ascii_text(""@));
        assert(ascii_lower_text(Seq::<char>::empty()) =~= Seq::<char>::empty());
        assert(lowercased(Seq::<char>::empty()) == Seq::<char>::empty());
    }
    let query = chars_of("task 9999");
    let ghost src = views(tasks@);
    let ghost pred = |t: TaskView| text_matches(t, "task 9999"@);
    let mut matches: Vec<Task> = Vec::new();
    let mut k: usize = 0;
    while k < tasks.len()
        invariant
            k <= tasks.len(),
            src == views(tasks@),
            query@ == "task 9999"@,
            pred == (|t: TaskView| text_matches(t, "task 9999"@)),
            forall|j: int| 0 <= j < tasks.len() ==> (#[trigger] tasks@[j]).wf(),
            forall|j: int| 0 <= j < matches.len() ==> (#[trigger] matches@[j]).wf(),
            views(matches@) == src.subrange(0, k as int).filter(pred),
            tasks.len() == 10000,
            forall|j: int| 0 <= j < 10000 ==> (#[trigger] tasks@[j]).title@ == numbered_title(j as nat),
            forall|j: int| 0 <= j < 10000 ==> (#[trigger] tasks@[j]).memo@ == Seq::<char>::empty(),
            forall|j: int| 0 <= j < 10000 ==> lowercased((#[trigger] tasks@[j]).title@) == tasks@[j].title@,
            lowercased(Seq::<char>::empty()) == Seq::<char>::empty(),
            "task 9999"@.len() == 9,
            views(matches@) == if k > 9999 { seq![src[9999]] } else { Seq::<TaskView>::empty() },
        decreases tasks.len() - k,
    {
        let ghost v = tasks@[k as int]@;
        proof {
            lemma_numbered_title_matches(k as nat);
            if contains_text(Seq::<char>::empty(), "task 9999"@) {
                let at = choose|at: int| occurs_at(Seq::<char>::empty(), "task 9999"@, at);
            }
            assert(pred(v) <==> k == 9999);
            assert(src[k as int] == v);
            assert(src.subrange(0, k + 1) == src.subrange(0, k as int).push(v));
            lemma_filter_push(src.subrange(0, k as int), pred, v);
        }
        if text_query_matches(&tasks[k], &query) {
            let ghost before = matches@;
            matches.push(tasks[k].copy());
            proof {
                assert(views(matches@) =~= views(before).push(v));
            }
        }
        k = k + 1;
    }
    proof {
        assert(src.subrange(0, src.len() as int) == src);
    }
    let sort = [SortSpec::default()];
    let utc = UtcOffset::utc();
    let sorted = sort_tasks(&matches, &sort, &utc);
    proof {
        let one = views(matches@);
        assert(one =~= seq![src[9999]]);
        let p = choose|p: Seq<usize>|
            #![trigger is_index_permutation(p, one.len() as int)]
            is_index_permutation(p, one.len() as int) && views(sorted@).len() == one.len() && forall|i: int|
                0 <= i < views(sorted@).len() ==> #[trigger] views(sorted@)[i] == one[p[i] as int];
        assert(views(sorted@)[0] == one[p[0] as int]);
        assert(views(sorted@)[0] == sorted@[0]@);
        assert(src[9999] == tasks@[9999]@);
        assert(sort@ =~= seq![SortSpec { field: crate::query::SortField::Manual, direction: crate::query::SortDirection::Ascending }]);
    }
    (tasks, sorted)
}

} // verus!
