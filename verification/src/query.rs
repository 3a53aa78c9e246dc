//! Task filters and saved views: which tasks a filter lets through.
use vstd::prelude::*;

use crate::calendar::{CivilDate, Timestamp, UtcOffset, date_at, local_day};
use crate::due::{
    due_date_at, due_day, due_is_overdue, due_is_today, due_is_upcoming, due_overdue, due_today,
    due_upcoming,
};
use crate::ids::{ProjectId, SavedViewId, TagId};
use crate::task::{Due, Priority, Task, TaskStatus, TaskView};
use crate::text::{chars_of, contains_chars, contains_text, lowercase_chars, lowercased, trim, trimmed};

verus! {

/// The smart view a saved view starts from.
#[derive(Clone, Copy, Debug, PartialEq, Eq, Structural)]
pub enum SavedBaseView {
    Inbox,
    Today,
    Upcoming,
    Overdue,
    Undated,
    Doing,
    Blocked,
    Done,
    Archived,
    Trash,
    Project(ProjectId),
    Tag(TagId),
}

/// Which due dates a filter keeps.
#[derive(Clone, Copy, Debug, PartialEq, Eq, Structural)]
pub enum DueScope {
    Any,
    Undated,
    Today,
    Upcoming,
    Overdue,
}

/// How the list groups its rows.
#[derive(Clone, Copy, Debug, PartialEq, Eq, Structural)]
pub enum GroupBy {
    Status,
    Project,
    Priority,
    Due,
}

/// What a sort key compares.
#[derive(Clone, Copy, Debug, PartialEq, Eq, Structural)]
pub enum SortField {
    Manual,
    Priority,
    Due,
    UpdatedAt,
    CreatedAt,
    Title,
}

#[derive(Clone, Copy, Debug, PartialEq, Eq, Structural)]
pub enum SortDirection {
    Ascending,
    Descending,
}

/// One sort key.
#[derive(Clone, Copy, Debug, PartialEq, Eq, Structural)]
pub struct SortSpec {
    pub field: SortField,
    pub direction: SortDirection,
}

impl Default for SortSpec {
    /// Manual order, ascending.
    fn default() -> (r: SortSpec)
        ensures
            r == (SortSpec { field: SortField::Manual, direction: SortDirection::Ascending }),
    {
        SortSpec { field: SortField::Manual, direction: SortDirection::Ascending }
    }
}

/// How the tasks are laid out.
#[derive(Clone, Copy, Debug, PartialEq, Eq, Hash, Structural)]
pub enum ViewKind {
    List,
    Board,
    Calendar,
}

/// The conditions of a saved view or of the live filter panel.
#[derive(Clone, Debug)]
pub struct TaskFilter {
    pub base_view: Option<SavedBaseView>,
    pub query: String,
    pub statuses: Vec<TaskStatus>,
    pub priorities: Vec<Priority>,
    pub project_ids: Vec<ProjectId>,
    pub unassigned_project: bool,
    pub tag_ids: Vec<TagId>,
    pub match_all_tags: bool,
    pub due_scope: DueScope,
    pub due_from: Option<Timestamp>,
    pub due_to: Option<Timestamp>,
    pub include_archived: bool,
    pub only_deleted: bool,
}

/// The mathematical content of a filter.
pub struct FilterView {
    pub base_view: Option<SavedBaseView>,
    pub query: Seq<char>,
    pub statuses: Seq<TaskStatus>,
    pub priorities: Seq<Priority>,
    pub project_ids: Seq<ProjectId>,
    pub unassigned_project: bool,
    pub tag_ids: Seq<TagId>,
    pub match_all_tags: bool,
    pub due_scope: DueScope,
    pub due_from: Option<Timestamp>,
    pub due_to: Option<Timestamp>,
    pub include_archived: bool,
    pub only_deleted: bool,
}

impl View for TaskFilter {
    type V = FilterView;

    open spec fn view(&self) -> FilterView {
        FilterView {
            base_view: self.base_view,
            query: self.query@,
            statuses: self.statuses@,
            priorities: self.priorities@,
            project_ids: self.project_ids@,
            unassigned_project: self.unassigned_project,
            tag_ids: self.tag_ids@,
            match_all_tags: self.match_all_tags,
            due_scope: self.due_scope,
            due_from: self.due_from,
            due_to: self.due_to,
            include_archived: self.include_archived,
            only_deleted: self.only_deleted,
        }
    }
}

impl TaskFilter {
    pub open spec fn wf(self) -> bool {
        &&& (self.due_from matches Some(t) ==> t.wf())
        &&& (self.due_to matches Some(t) ==> t.wf())
    }

    /// The filter that keeps every task that is not in the trash or archived.
    pub fn empty() -> (r: TaskFilter)
        ensures
            r@ == (FilterView {
                base_view: None,
                query: Seq::empty(),
                statuses: Seq::empty(),
                priorities: Seq::empty(),
                project_ids: Seq::empty(),
                unassigned_project: false,
                tag_ids: Seq::empty(),
                match_all_tags: false,
                due_scope: DueScope::Any,
                due_from: None,
                due_to: None,
                include_archived: false,
                only_deleted: false,
            }),
            r.wf(),
    {
        TaskFilter {
            base_view: None,
            query: String::new(),
            statuses: Vec::new(),
            priorities: Vec::new(),
            project_ids: Vec::new(),
            unassigned_project: false,
            tag_ids: Vec::new(),
            match_all_tags: false,
            due_scope: DueScope::Any,
            due_from: None,
            due_to: None,
            include_archived: false,
            only_deleted: false,
        }
    }
}

/// A named, stored combination of filter, layout, sort and grouping.
#[derive(Clone, Debug)]
pub struct SavedView {
    pub id: SavedViewId,
    pub name: String,
    pub view_kind: ViewKind,
    pub filter: TaskFilter,
    pub sort: Vec<SortSpec>,
    pub group_by: Option<GroupBy>,
    pub sort_order: i64,
    pub created_at: Timestamp,
    pub updated_at: Timestamp,
}

/// `Inbox` reads as `Todo`.
pub open spec fn normalized_status(s: TaskStatus) -> TaskStatus {
    if s == TaskStatus::Inbox {
        TaskStatus::Todo
    } else {
        s
    }
}

/// Trash views show deleted tasks, all others the tasks that are not deleted.
pub open spec fn visibility_matches(t: TaskView, f: FilterView) -> bool {
    if f.base_view == Some(SavedBaseView::Trash) || f.only_deleted {
        t.deleted_at is Some
    } else {
        t.deleted_at is None
    }
}

/// Archived tasks are hidden unless the view asks for them.
pub open spec fn archive_hidden(t: TaskView, f: FilterView) -> bool {
    &&& t.status == TaskStatus::Archived
    &&& !f.only_deleted
    &&& f.base_view != Some(SavedBaseView::Archived)
    &&& f.base_view != Some(SavedBaseView::Trash)
    &&& !f.include_archived
}

/// The task belongs to the smart view `base`.
pub open spec fn smart_view_matches(
    t: TaskView,
    base: Option<SavedBaseView>,
    now: Timestamp,
    today: CivilDate,
    offset: UtcOffset,
) -> bool {
    match base {
        None => true,
        Some(SavedBaseView::Trash) => true,
        Some(SavedBaseView::Inbox) => t.status == TaskStatus::Todo,
        Some(SavedBaseView::Today) => due_today(t.due, today, offset),
        Some(SavedBaseView::Upcoming) => due_upcoming(t.due, today, offset),
        Some(SavedBaseView::Overdue) => t.status != TaskStatus::Done && due_overdue(t.due, now, today),
        Some(SavedBaseView::Undated) => t.due is Unset,
        Some(SavedBaseView::Doing) => t.status == TaskStatus::Doing,
        Some(SavedBaseView::Blocked) => t.status == TaskStatus::Blocked,
        Some(SavedBaseView::Done) => t.status == TaskStatus::Done,
        Some(SavedBaseView::Archived) => t.status == TaskStatus::Archived,
        Some(SavedBaseView::Project(id)) => t.project_id == Some(id),
        Some(SavedBaseView::Tag(id)) => t.tag_ids.contains(id),
    }
}

/// The lowercased title or memo contains the lowercased query `q`, or `q` is empty.
pub open spec fn text_matches(t: TaskView, q: Seq<char>) -> bool {
    q.len() == 0 || contains_text(lowercased(t.title), q) || contains_text(lowercased(t.memo), q)
}

/// No statuses are chosen, or the task's status is one of them (`Inbox` reading as `Todo`).
pub open spec fn status_filter_matches(statuses: Seq<TaskStatus>, s: TaskStatus) -> bool {
    statuses.len() == 0 || exists|i: int|
        0 <= i < statuses.len() && normalized_status(#[trigger] statuses[i]) == normalized_status(s)
}

pub open spec fn priority_filter_matches(priorities: Seq<Priority>, p: Priority) -> bool {
    priorities.len() == 0 || priorities.contains(p)
}

/// No project condition, or the task's project is chosen, or it has no project and
/// unassigned tasks are chosen.
pub open spec fn project_filter_matches(t: TaskView, f: FilterView) -> bool {
    (f.project_ids.len() == 0 && !f.unassigned_project) || match t.project_id {
        None => f.unassigned_project,
        Some(id) => f.project_ids.contains(id),
    }
}

/// No tag condition, or the task carries all (or any) of the chosen tags.
pub open spec fn tag_filter_matches(t: TaskView, f: FilterView) -> bool {
    f.tag_ids.len() == 0 || if f.match_all_tags {
        forall|i: int| 0 <= i < f.tag_ids.len() ==> t.tag_ids.contains(#[trigger] f.tag_ids[i])
    } else {
        exists|i: int| 0 <= i < f.tag_ids.len() && t.tag_ids.contains(#[trigger] f.tag_ids[i])
    }
}

pub open spec fn scope_matches(
    t: TaskView,
    scope: DueScope,
    now: Timestamp,
    today: CivilDate,
    offset: UtcOffset,
) -> bool {
    match scope {
        DueScope::Any => true,
        DueScope::Undated => t.due is Unset,
        DueScope::Today => due_today(t.due, today, offset),
        DueScope::Upcoming => due_upcoming(t.due, today, offset),
        DueScope::Overdue => t.status != TaskStatus::Done && due_overdue(t.due, now, today),
    }
}

/// The task's due day is on or after the local date of `due_from` and on or before
/// the local date of `due_to`, where those are set.
pub open spec fn range_matches(t: TaskView, f: FilterView, offset: UtcOffset) -> bool {
    &&& (f.due_from matches Some(from) ==> (due_day(t.due, offset) matches Some(n) && n >= local_day(
        from,
        offset,
    )))
    &&& (f.due_to matches Some(to) ==> (due_day(t.due, offset) matches Some(n) && n <= local_day(
        to,
        offset,
    )))
}

/// The task passes the filter `f` at `now`, on `today`, for a user at `offset`.
pub open spec fn filter_matches(
    t: TaskView,
    f: FilterView,
    now: Timestamp,
    today: CivilDate,
    offset: UtcOffset,
) -> bool {
    &&& visibility_matches(t, f)
    &&& !archive_hidden(t, f)
    &&& smart_view_matches(t, f.base_view, now, today, offset)
    &&& text_matches(t, lowercased(trimmed(f.query)))
    &&& status_filter_matches(f.statuses, t.status)
    &&& priority_filter_matches(f.priorities, t.priority)
    &&& project_filter_matches(t, f)
    &&& tag_filter_matches(t, f)
    &&& scope_matches(t, f.due_scope, now, today, offset)
    &&& range_matches(t, f, offset)
}

fn normalize_status(s: TaskStatus) -> (r: TaskStatus)
    ensures
        r == normalized_status(s),
{
    if s == TaskStatus::Inbox {
        TaskStatus::Todo
    } else {
        s
    }
}

/// Whether the status filter lets `s` through.
pub fn status_matches(statuses: &Vec<TaskStatus>, s: TaskStatus) -> (r: bool)
    ensures
        r == status_filter_matches(statuses@, s),
{
    if statuses.len() == 0 {
        return true;
    }
    let target = normalize_status(s);
    let mut i: usize = 0;
    while i < statuses.len()
        invariant
            i <= statuses.len(),
            target == normalized_status(s),
            forall|k: int| 0 <= k < i ==> normalized_status(#[trigger] statuses@[k]) != target,
        decreases statuses.len() - i,
    {
        if normalize_status(statuses[i]) == target {
            return true;
        }
        i = i + 1;
    }
    false
}

pub fn contains_priority(v: &Vec<Priority>, x: Priority) -> (r: bool)
    ensures
        r == v@.contains(x),
{
    let mut i: usize = 0;
    while i < v.len()
        invariant
            i <= v.len(),
            forall|k: int| 0 <= k < i ==> v@[k] != x,
        decreases v.len() - i,
    {
        if v[i] == x {
            assert(v@[i as int] == x);
            return true;
        }
        i = i + 1;
    }
    false
}

pub fn contains_project(v: &Vec<ProjectId>, x: ProjectId) -> (r: bool)
    ensures
        r == v@.contains(x),
{
    let mut i: usize = 0;
    while i < v.len()
        invariant
            i <= v.len(),
            forall|k: int| 0 <= k < i ==> v@[k] != x,
        decreases v.len() - i,
    {
        if v[i] == x {
            assert(v@[i as int] == x);
            return true;
        }
        i = i + 1;
    }
    false
}

pub fn contains_tag(v: &Vec<TagId>, x: TagId) -> (r: bool)
    ensures
        r == v@.contains(x),
{
    let mut i: usize = 0;
    while i < v.len()
        invariant
            i <= v.len(),
            forall|k: int| 0 <= k < i ==> v@[k] != x,
        decreases v.len() - i,
    {
        if v[i] == x {
            assert(v@[i as int] == x);
            return true;
        }
        i = i + 1;
    }
    false
}

pub fn contains_status(v: &Vec<TaskStatus>, x: TaskStatus) -> (r: bool)
    ensures
        r == v@.contains(x),
{
    let mut i: usize = 0;
    while i < v.len()
        invariant
            i <= v.len(),
            forall|k: int| 0 <= k < i ==> v@[k] != x,
        decreases v.len() - i,
    {
        if v[i] == x {
            assert(v@[i as int] == x);
            return true;
        }
        i = i + 1;
    }
    false
}

fn project_matches(t: &Task, f: &TaskFilter) -> (r: bool)
    ensures
        r == project_filter_matches(t@, f@),
{
    if f.project_ids.len() == 0 && !f.unassigned_project {
        return true;
    }
    match t.project_id {
        None => f.unassigned_project,
        Some(id) => contains_project(&f.project_ids, id),
    }
}

fn tag_matches(t: &Task, f: &TaskFilter) -> (r: bool)
    ensures
        r == tag_filter_matches(t@, f@),
{
    if f.tag_ids.len() == 0 {
        return true;
    }
    let mut i: usize = 0;
    if f.match_all_tags {
        while i < f.tag_ids.len()
            invariant
                i <= f.tag_ids.len(),
                f.match_all_tags,
                f.tag_ids.len() > 0,
                forall|k: int| 0 <= k < i ==> t.tag_ids@.contains(#[trigger] f.tag_ids@[k]),
            decreases f.tag_ids.len() - i,
        {
            if !contains_tag(&t.tag_ids, f.tag_ids[i]) {
                assert(!t.tag_ids@.contains(f.tag_ids@[i as int]));
                assert(f@.tag_ids[i as int] == f.tag_ids@[i as int]);
                assert(!tag_filter_matches(t@, f@));
                return false;
            }
            i = i + 1;
        }
        true
    } else {
        while i < f.tag_ids.len()
            invariant
                i <= f.tag_ids.len(),
                !f.match_all_tags,
                f.tag_ids.len() > 0,
                forall|k: int| 0 <= k < i ==> !t.tag_ids@.contains(#[trigger] f.tag_ids@[k]),
            decreases f.tag_ids.len() - i,
        {
            if contains_tag(&t.tag_ids, f.tag_ids[i]) {
                assert(t.tag_ids@.contains(f.tag_ids@[i as int]));
                return true;
            }
            i = i + 1;
        }
        false
    }
}

/// The lowercased title or memo of `t` contains `q`, or `q` is empty.
pub fn text_query_matches(t: &Task, q: &Vec<char>) -> (r: bool)
    ensures
        r == text_matches(t@, q@),
{
    if q.len() == 0 {
        return true;
    }
    let title = lowercase_chars(t.title.as_str());
    if contains_chars(&title, q) {
        return true;
    }
    let memo = lowercase_chars(t.memo.as_str());
    contains_chars(&memo, q)
}

fn smart_matches(
    t: &Task,
    base: Option<SavedBaseView>,
    now: &Timestamp,
    today: &CivilDate,
    offset: &UtcOffset,
) -> (r: bool)
    requires
        t.wf(),
        today.wf(),
        offset.wf(),
    ensures
        r == smart_view_matches(t@, base, *now, *today, *offset),
{
    match base {
        None => true,
        Some(SavedBaseView::Trash) => true,
        Some(SavedBaseView::Inbox) => t.status == TaskStatus::Todo,
        Some(SavedBaseView::Today) => due_is_today(&t.due, today, offset),
        Some(SavedBaseView::Upcoming) => due_is_upcoming(&t.due, today, offset),
        Some(SavedBaseView::Overdue) => t.status != TaskStatus::Done && due_is_overdue(
            &t.due,
            now,
            today,
        ),
        Some(SavedBaseView::Undated) => t.due == Due::Unset,
        Some(SavedBaseView::Doing) => t.status == TaskStatus::Doing,
        Some(SavedBaseView::Blocked) => t.status == TaskStatus::Blocked,
        Some(SavedBaseView::Done) => t.status == TaskStatus::Done,
        Some(SavedBaseView::Archived) => t.status == TaskStatus::Archived,
        Some(SavedBaseView::Project(id)) => t.project_id == Some(id),
        Some(SavedBaseView::Tag(id)) => contains_tag(&t.tag_ids, id),
    }
}

pub(crate) fn scope_ok(t: &Task, scope: DueScope, now: &Timestamp, today: &CivilDate, offset: &UtcOffset) -> (r:
    bool)
    requires
        t.wf(),
        today.wf(),
        offset.wf(),
    ensures
        r == scope_matches(t@, scope, *now, *today, *offset),
{
    match scope {
        DueScope::Any => true,
        DueScope::Undated => t.due == Due::Unset,
        DueScope::Today => due_is_today(&t.due, today, offset),
        DueScope::Upcoming => due_is_upcoming(&t.due, today, offset),
        DueScope::Overdue => t.status != TaskStatus::Done && due_is_overdue(&t.due, now, today),
    }
}

fn range_ok(t: &Task, f: &TaskFilter, offset: &UtcOffset) -> (r: bool)
    requires
        t.wf(),
        f.wf(),
        offset.wf(),
    ensures
        r == range_matches(t@, f@, *offset),
{
    let day = match due_date_at(&t.due, offset) {
        Some(d) => Some(d.day_number()),
        None => None,
    };
    if let Some(from) = f.due_from {
        let bound = date_at(&from, offset).day_number();
        match day {
            None => return false,
            Some(n) => {
                if n < bound {
                    return false;
                }
            },
        }
    }
    if let Some(to) = f.due_to {
        let bound = date_at(&to, offset).day_number();
        match day {
            None => return false,
            Some(n) => {
                if n > bound {
                    return false;
                }
            },
        }
    }
    true
}

/// A filter prepared for matching: the trimmed, lowercased query and the date the
/// filter is evaluated on.
pub struct TaskQuery<'a> {
    pub filter: &'a TaskFilter,
    pub query: Vec<char>,
    pub now: Timestamp,
    pub today: CivilDate,
    pub offset: UtcOffset,
}

impl<'a> TaskQuery<'a> {
    pub open spec fn wf(self) -> bool {
        &&& self.filter.wf()
        &&& self.query@ == lowercased(trimmed(self.filter.query@))
        &&& self.now.wf()
        &&& self.offset.wf()
        &&& self.today.wf()
        &&& self.today.days() == local_day(self.now, self.offset)
    }

    /// Prepares `filter` for matching at `now` for a user at `offset`.
    pub fn new(filter: &'a TaskFilter, now: Timestamp, offset: UtcOffset) -> (r: TaskQuery<'a>)
        requires
            filter.wf(),
            now.wf(),
            offset.wf(),
        ensures
            r.wf(),
            r.filter == filter,
            r.now == now,
            r.offset == offset,
    {
        let trimmed_query = trim(filter.query.as_str());
        let query = lowercase_chars(trimmed_query.as_str());
        let today = date_at(&now, &offset);
        TaskQuery { filter, query, now, today, offset }
    }

    /// Whether `task` passes the filter.
    pub fn matches(&self, task: &Task) -> (r: bool)
        requires
            self.wf(),
            task.wf(),
        ensures
            r == filter_matches(task@, self.filter@, self.now, self.today, self.offset),
    {
        let f = self.filter;
        let visible = if f.base_view == Some(SavedBaseView::Trash) || f.only_deleted {
            task.deleted_at.is_some()
        } else {
            task.deleted_at.is_none()
        };
        if !visible {
            return false;
        }
        if task.status == TaskStatus::Archived && !f.only_deleted && f.base_view != Some(
            SavedBaseView::Archived,
        ) && f.base_view != Some(SavedBaseView::Trash) && !f.include_archived {
            return false;
        }
        if !smart_matches(task, f.base_view, &self.now, &self.today, &self.offset) {
            return false;
        }
        if !text_query_matches(task, &self.query) {
            return false;
        }
        if !status_matches(&f.statuses, task.status) {
            return false;
        }
        if f.priorities.len() > 0 && !contains_priority(&f.priorities, task.priority) {
            return false;
        }
        if !project_matches(task, f) || !tag_matches(task, f) {
            return false;
        }
        if !scope_ok(task, f.due_scope, &self.now, &self.today, &self.offset) {
            return false;
        }
        range_ok(task, f, &self.offset)
    }
}

/// Whether `task` belongs to the saved view `view` right now, at the system's
/// current offset from UTC.
pub fn task_matches_saved_view(task: &Task, view: &SavedView) -> (r: bool)
    requires
        task.wf(),
        view.filter.wf(),
    ensures
        exists|now: Timestamp, today: CivilDate, offset: UtcOffset|
            now.wf() && offset.wf() && today.wf() && today.days() == local_day(now, offset) && r
                == filter_matches(task@, view.filter@, now, today, offset),
        r ==> visibility_matches(task@, view.filter@) && !archive_hidden(task@, view.filter@),
{
    let offset = UtcOffset::current_local();
    let now = Timestamp::now();
    let query = TaskQuery::new(&view.filter, now, offset);
    query.matches(task)
}

/// Legacy classification views (by project or tag) are kept on disk but not
/// offered, so that no invisible condition applies.
pub open spec fn saved_view_available(view_base: Option<SavedBaseView>, f: FilterView, group_by: Option<
    GroupBy,
>) -> bool {
    &&& !(view_base matches Some(SavedBaseView::Project(_)))
    &&& !(view_base matches Some(SavedBaseView::Tag(_)))
    &&& f.project_ids.len() == 0
    &&& !f.unassigned_project
    &&& f.tag_ids.len() == 0
    &&& group_by != Some(GroupBy::Project)
}

/// Whether a saved view is offered in the sidebar.
pub fn saved_view_is_available(view: &SavedView) -> (r: bool)
    ensures
        r == saved_view_available(view.filter.base_view, view.filter@, view.group_by),
{
    let f = &view.filter;
    let legacy_base = match f.base_view {
        Some(SavedBaseView::Project(_)) => true,
        Some(SavedBaseView::Tag(_)) => true,
        _ => false,
    };
    !legacy_base && f.project_ids.len() == 0 && !f.unassigned_project && f.tag_ids.len() == 0
        && view.group_by != Some(GroupBy::Project)
}

/// The statuses of a saved filter with `Inbox` read as `Todo`, each once.
pub fn normalized_statuses(statuses: &Vec<TaskStatus>) -> (r: Vec<TaskStatus>)
    ensures
        r@.no_duplicates(),
        forall|s: TaskStatus|
            r@.contains(s) <==> exists|i: int|
                0 <= i < statuses@.len() && normalized_status(#[trigger] statuses@[i]) == s,
{
    let mut out: Vec<TaskStatus> = Vec::new();
    let mut i: usize = 0;
    while i < statuses.len()
        invariant
            i <= statuses.len(),
            out@.no_duplicates(),
            forall|s: TaskStatus|
                out@.contains(s) <==> exists|k: int|
                    0 <= k < i && normalized_status(#[trigger] statuses@[k]) == s,
        decreases statuses.len() - i,
    {
        let s = normalize_status(statuses[i]);
        let ghost prev = out@;
        if !contains_status(&out, s) {
            out.push(s);
            proof {
                assert forall|a: int, b: int|
                    0 <= a < out@.len() && 0 <= b < out@.len() && a != b implies out@[a]
                    != out@[b] by {
                    if a < prev.len() && b < prev.len() {
                        assert(prev[a] != prev[b]);
                    } else if a < prev.len() {
                        assert(prev.contains(prev[a]));
                    } else {
                        assert(prev.contains(prev[b]));
                    }
                }
            }
        }
        proof {
            assert forall|x: TaskStatus| out@.contains(x) <==> (prev.contains(x) || x == s) by {
                if out@.contains(x) {
                    let j = choose|j: int| 0 <= j < out@.len() && out@[j] == x;
                    if j < prev.len() {
                        assert(prev[j] == x);
                    }
                }
                if prev.contains(x) {
                    let j = choose|j: int| 0 <= j < prev.len() && prev[j] == x;
                    assert(out@[j] == x);
                }
                if x == s && !prev.contains(x) {
                    assert(out@[prev.len() as int] == s);
                }
            }
            assert forall|x: TaskStatus|
                out@.contains(x) <==> exists|k: int|
                    0 <= k < i + 1 && normalized_status(#[trigger] statuses@[k]) == x by {
                if out@.contains(x) {
                    if x == s {
                        assert(normalized_status(statuses@[i as int]) == x);
                    } else {
                        assert(prev.contains(x));
                        let k = choose|k: int| 0 <= k < i && normalized_status(#[trigger] statuses@[k]) == x;
                        assert(0 <= k < i + 1 && normalized_status(statuses@[k]) == x);
                    }
                }
                if exists|k: int| 0 <= k < i + 1 && normalized_status(#[trigger] statuses@[k]) == x {
                    let k = choose|k: int| 0 <= k < i + 1 && normalized_status(#[trigger] statuses@[k]) == x;
                    if k < i {
                        assert(prev.contains(x));
                    } else {
                        assert(x == s);
                    }
                }
            }
        }
        i = i + 1;
    }
    out
}

} // verus!
