//! The state the workspace opens with, and the panel a saved view loads when it is
//! opened.
use vstd::prelude::*;
use vstd::string::StringExecFns;

use crate::calendar::{CivilDate, Timestamp, UtcOffset, date_at, date_of_day, first_of_month, local_day};
use crate::due::{due_is_today, due_today};
use crate::filters::copied;
use crate::ids::SavedViewId;
use crate::listing::LiveFilter;
use crate::query::{
    GroupBy, SavedView, SortDirection, SortField, SortSpec, ViewKind, normalized_status,
    normalized_statuses, saved_view_available, saved_view_is_available,
};
use crate::sorting::views;
use crate::task::{Task, TaskStatus, TaskView};
use crate::views::{SmartView, find_saved_view, first_with_id, smart_view_from_setting, view_of_setting};

verus! {

/// The sort keys in use for stored keys `sort`: the manual order when none are
/// stored, else the first two.
pub open spec fn effective_sort_of(sort: Seq<SortSpec>) -> Seq<SortSpec> {
    if sort.len() == 0 {
        seq![SortSpec { field: SortField::Manual, direction: SortDirection::Ascending }]
    } else if sort.len() <= 2 {
        sort
    } else {
        sort.take(2)
    }
}

/// The sort keys in use for the stored keys `sort`.
pub fn effective_sort(sort: &Vec<SortSpec>) -> (r: Vec<SortSpec>)
    ensures
        r@ == effective_sort_of(sort@),
{
    let mut out: Vec<SortSpec> = Vec::new();
    if sort.len() == 0 {
        out.push(SortSpec { field: SortField::Manual, direction: SortDirection::Ascending });
        proof {
            assert(out@ =~= effective_sort_of(sort@));
        }
        return out;
    }
    out.push(sort[0]);
    if sort.len() > 1 {
        out.push(sort[1]);
    }
    proof {
        assert(out@ =~= effective_sort_of(sort@));
    }
    out
}

/// What the list shows when a saved view is opened: its layout, filter panel, sort
/// and grouping, and its search text.
#[derive(Clone, Debug)]
pub struct ViewPanel {
    pub view_kind: ViewKind,
    pub live: LiveFilter,
    pub sort: Vec<SortSpec>,
    pub group_by: Option<GroupBy>,
    pub query: String,
}

/// The local date at `offset` of a stored range boundary.
pub open spec fn boundary_date(t: Option<Timestamp>, offset: UtcOffset) -> Option<CivilDate> {
    match t {
        Some(ts) => Some(date_of_day(local_day(ts, offset))),
        None => None,
    }
}

/// `p` is the panel that opening `view` at `offset` loads: the view's layout, its
/// statuses with `Inbox` read as `Todo`, its other conditions, its range boundaries as
/// local dates, its sort keys in use, its grouping and its search text.
pub open spec fn loads(p: ViewPanel, view: SavedView, offset: UtcOffset) -> bool {
    &&& p.view_kind == view.view_kind
    &&& p.live.statuses@.no_duplicates()
    &&& forall|s: TaskStatus|
        p.live.statuses@.contains(s) <==> exists|i: int|
            0 <= i < view.filter.statuses@.len() && normalized_status(#[trigger] view.filter.statuses@[i]) == s
    &&& p.live.priorities@ == view.filter.priorities@
    &&& p.live.projects@ == view.filter.project_ids@
    &&& p.live.unassigned_project == view.filter.unassigned_project
    &&& p.live.tags@ == view.filter.tag_ids@
    &&& p.live.match_all_tags == view.filter.match_all_tags
    &&& p.live.due == view.filter.due_scope
    &&& p.live.due_from == boundary_date(view.filter.due_from, offset)
    &&& p.live.due_to == boundary_date(view.filter.due_to, offset)
    &&& p.sort@ == effective_sort_of(view.sort@)
    &&& p.group_by == view.group_by
    &&& p.query@ == view.filter.query@
}

fn local_boundary(t: Option<Timestamp>, offset: &UtcOffset) -> (r: Option<CivilDate>)
    requires
        t matches Some(ts) ==> ts.wf(),
        offset.wf(),
    ensures
        r == boundary_date(t, *offset),
        r matches Some(d) ==> d.wf(),
{
    match t {
        Some(ts) => Some(date_at(&ts, offset)),
        None => None,
    }
}

/// The panel that opening the saved view `view` loads.
pub fn panel_of_saved_view(view: &SavedView, offset: &UtcOffset) -> (r: ViewPanel)
    requires
        view.filter.wf(),
        offset.wf(),
    ensures
        loads(r, *view, *offset),
        r.live.wf(),
{
    let f = &view.filter;
    ViewPanel {
        view_kind: view.view_kind,
        live: LiveFilter {
            statuses: normalized_statuses(&f.statuses),
            priorities: copied(&f.priorities),
            projects: copied(&f.project_ids),
            unassigned_project: f.unassigned_project,
            tags: copied(&f.tag_ids),
            match_all_tags: f.match_all_tags,
            due: f.due_scope,
            due_from: local_boundary(f.due_from, offset),
            due_to: local_boundary(f.due_to, offset),
        },
        sort: effective_sort(&view.sort),
        group_by: view.group_by,
        query: view.filter.query.clone(),
    }
}

/// Some task that is neither in the trash nor archived is due on `today`.
pub open spec fn something_due_today(tasks: Seq<TaskView>, today: CivilDate, offset: UtcOffset) -> bool {
    exists|i: int|
        0 <= i < tasks.len() && tasks[i].deleted_at is None && tasks[i].status != TaskStatus::Archived
            && due_today(#[trigger] tasks[i].due, today, offset)
}

/// Some saved view with identifier `id` is offered in the sidebar.
pub open spec fn available_saved_view(saved: Seq<SavedView>, id: SavedViewId) -> bool {
    exists|i: int|
        0 <= i < saved.len() && saved[i].id == id && saved_view_available(
            saved[i].filter.base_view,
            saved[i].filter@,
            saved[i].group_by,
        )
}

/// The view the workspace opens with: on the first run with nothing due today, All;
/// otherwise the stored view, except that a saved view that is gone or no longer
/// offered opens as All.
pub open spec fn opening_view(
    first_run: bool,
    tasks: Seq<TaskView>,
    setting: Seq<char>,
    saved: Seq<SavedView>,
    today: CivilDate,
    offset: UtcOffset,
) -> SmartView {
    let v = if first_run && !something_due_today(tasks, today, offset) {
        SmartView::All
    } else {
        view_of_setting(setting)
    };
    match v {
        SmartView::Saved(id) => if available_saved_view(saved, id) {
            v
        } else {
            SmartView::All
        },
        _ => v,
    }
}

fn any_due_today(tasks: &Vec<Task>, today: &CivilDate, offset: &UtcOffset) -> (r: bool)
    requires
        forall|i: int| 0 <= i < tasks.len() ==> (#[trigger] tasks@[i]).wf(),
        today.wf(),
        offset.wf(),
    ensures
        r == something_due_today(views(tasks@), *today, *offset),
{
    let ghost tv = views(tasks@);
    let mut i: usize = 0;
    while i < tasks.len()
        invariant
            i <= tasks.len(),
            tv == views(tasks@),
            today.wf(),
            offset.wf(),
            forall|j: int| 0 <= j < tasks.len() ==> (#[trigger] tasks@[j]).wf(),
            forall|j: int|
                0 <= j < i ==> !(tv[j].deleted_at is None && tv[j].status != TaskStatus::Archived && due_today(
                    #[trigger] tv[j].due,
                    *today,
                    *offset,
                )),
        decreases tasks.len() - i,
    {
        let t = &tasks[i];
        proof {
            assert(tv[i as int] == t@);
        }
        if t.deleted_at.is_none() && t.status != TaskStatus::Archived && due_is_today(&t.due, today, offset) {
            assert(due_today(tv[i as int].due, *today, *offset));
            return true;
        }
        i = i + 1;
    }
    false
}

fn saved_view_offered(saved: &Vec<SavedView>, id: SavedViewId) -> (r: bool)
    ensures
        r == available_saved_view(saved@, id),
{
    let mut i: usize = 0;
    while i < saved.len()
        invariant
            i <= saved.len(),
            forall|j: int|
                0 <= j < i ==> !(saved@[j].id == id && saved_view_available(
                    #[trigger] saved@[j].filter.base_view,
                    saved@[j].filter@,
                    saved@[j].group_by,
                )),
        decreases saved.len() - i,
    {
        if saved[i].id == id && saved_view_is_available(&saved[i]) {
            return true;
        }
        i = i + 1;
    }
    false
}

/// The view the workspace opens with, on `today` at `offset`.
pub fn opening_view_at(
    first_run: bool,
    tasks: &Vec<Task>,
    setting: &str,
    saved: &Vec<SavedView>,
    today: &CivilDate,
    offset: &UtcOffset,
) -> (r: SmartView)
    requires
        forall|i: int| 0 <= i < tasks.len() ==> (#[trigger] tasks@[i]).wf(),
        today.wf(),
        offset.wf(),
    ensures
        r == opening_view(first_run, views(tasks@), setting@, saved@, *today, *offset),
{
    let v = if first_run && !any_due_today(tasks, today, offset) {
        SmartView::All
    } else {
        smart_view_from_setting(setting)
    };
    match v {
        SmartView::Saved(id) => if saved_view_offered(saved, id) {
            v
        } else {
            SmartView::All
        },
        _ => v,
    }
}

/// The grouping the workspace opens with from the stored one: grouping by project
/// is no longer offered.
pub fn opening_group_by(stored: Option<GroupBy>) -> (r: Option<GroupBy>)
    ensures
        stored == Some(GroupBy::Project) ==> r is None,
        stored != Some(GroupBy::Project) ==> r == stored,
{
    match stored {
        Some(GroupBy::Project) => None,
        other => other,
    }
}

/// Everything the workspace opens with that depends on stored state.
#[derive(Clone, Debug)]
pub struct OpeningState {
    pub active_view: SmartView,
    pub panel: ViewPanel,
    pub view_name: String,
    pub calendar_month: CivilDate,
    pub show_saved_views: bool,
}

/// The opening state on `today` at `offset`: the opening view; when it is a saved
/// view, the panel it loads but with the stored layout (the layout chosen last
/// survives a restart; the saved view's own layout applies when it is opened again),
/// and its name; otherwise the stored layout, the stored sort keys in use, the stored grouping (never by project), an
/// empty filter panel, no search text and no name; the calendar on the first of the
/// month of `today`; and the saved views shown when a saved view is open.
pub fn opening_state(
    first_run: bool,
    tasks: &Vec<Task>,
    setting_view: &str,
    setting_kind: ViewKind,
    setting_sort: &Vec<SortSpec>,
    setting_group_by: Option<GroupBy>,
    saved: &Vec<SavedView>,
    today: &CivilDate,
    offset: &UtcOffset,
) -> (r: OpeningState)
    requires
        forall|i: int| 0 <= i < tasks.len() ==> (#[trigger] tasks@[i]).wf(),
        forall|i: int| 0 <= i < saved.len() ==> (#[trigger] saved@[i]).filter.wf(),
        today.wf(),
        offset.wf(),
    ensures
        r.active_view == opening_view(first_run, views(tasks@), setting_view@, saved@, *today, *offset),
        r.active_view matches SmartView::Saved(id) ==> {
            let view = saved@[first_with_id(saved@, id)];
            &&& loads((ViewPanel { view_kind: view.view_kind, ..r.panel }), view, *offset)
            &&& r.panel.view_kind == setting_kind
            &&& r.view_name@ == view.name@
        },
        !(r.active_view is Saved) ==> {
            &&& r.panel.view_kind == setting_kind
            &&& r.panel.sort@ == effective_sort_of(setting_sort@)
            &&& r.panel.group_by == if setting_group_by == Some(GroupBy::Project) {
                None
            } else {
                setting_group_by
            }
            &&& r.panel.live.statuses@.len() == 0
            &&& r.panel.live.priorities@.len() == 0
            &&& r.panel.live.projects@.len() == 0
            &&& !r.panel.live.unassigned_project
            &&& r.panel.live.tags@.len() == 0
            &&& !r.panel.live.match_all_tags
            &&& r.panel.live.due == crate::query::DueScope::Any
            &&& r.panel.live.due_from is None
            &&& r.panel.live.due_to is None
            &&& r.panel.query@.len() == 0
            &&& r.view_name@.len() == 0
        },
        r.panel.live.wf(),
        r.calendar_month.wf(),
        r.calendar_month.year == today.year && r.calendar_month.month == today.month && r.calendar_month.day == 1,
        r.show_saved_views == r.active_view is Saved,
{
    let active = opening_view_at(first_run, tasks, setting_view, saved, today, offset);
    let month = first_of_month(today);
    let loaded: Option<(ViewPanel, String)> = match active {
        SmartView::Saved(id) => match find_saved_view(saved, id) {
            Some(i) => {
                let mut panel = panel_of_saved_view(&saved[i], offset);
                panel.view_kind = setting_kind;
                Some((panel, saved[i].name.clone()))
            },
            None => None,
        },
        _ => None,
    };
    let (panel, name) = match loaded {
        Some(x) => x,
        None => {
            proof {
                if let SmartView::Saved(id) = active {
                    let k = choose|k: int|
                        0 <= k < saved@.len() && saved@[k].id == id && saved_view_available(
                            saved@[k].filter.base_view,
                            saved@[k].filter@,
                            saved@[k].group_by,
                        );
                    assert(saved@[k].id == id);
                }
            }
            (
                ViewPanel {
                    view_kind: setting_kind,
                    live: LiveFilter::cleared(),
                    sort: effective_sort(setting_sort),
                    group_by: opening_group_by(setting_group_by),
                    query: String::new(),
                },
                String::new(),
            )
        },
    };
    let show = match active {
        SmartView::Saved(_) => true,
        _ => false,
    };
    OpeningState { active_view: active, panel, view_name: name, calendar_month: month, show_saved_views: show }
}

} // verus!
