use hodoq::due::{format_due_input_at, parse_due_at};
use hodoq::editing::{bulk_update, detail_inputs, edit_from_form, swap_sort_orders, TaskUpdate};
use hodoq::catalog::{Project, ProjectChange, Tag, TagChange};
use hodoq::history::{apply_history, begin_history_step, settle_history_step, store_plan, History, HistoryEntry, TaskChange};
use hodoq::ids::{ProjectId, TagId};
use hodoq::ids::{SavedViewId, TaskId};
use hodoq::ordering::compare_tasks;
use hodoq::sorting::sort_tasks;
use hodoq::selection::{click_after_flush, ClickAction, SelectionState};
use hodoq::steps::{after_purge, close_after_save, settle_task_changes};
use hodoq::editing::NewTaskDraft;
use std::cmp::Ordering;
use hodoq::query::{SortDirection, SortField, SortSpec};
use hodoq::calendar::{CivilDate, Timestamp, UtcOffset};
use hodoq::task::{same_task, Priority, Task, TaskStatus};
use hodoq::views::{smart_view_from_setting, smart_view_setting, SmartView};

fn task(n: u128, title: &str, at: i64) -> Task {
    let now = Timestamp::unix_epoch().plus_seconds(at).unwrap();
    Task::with_id(TaskId { value: n }, title, now).unwrap()
}

fn copies(tasks: &[Task]) -> Vec<Task> {
    tasks.iter().map(|task| task.copy()).collect()
}

fn same_tasks(left: &[Task], right: &[Task]) -> bool {
    left.len() == right.len() && left.iter().zip(right).all(|(a, b)| same_task(a, b))
}

#[test]
fn every_view_setting_reopens_the_same_view() {
    let views = [
        SmartView::Today,
        SmartView::Upcoming,
        SmartView::Overdue,
        SmartView::Undated,
        SmartView::All,
        SmartView::Doing,
        SmartView::Blocked,
        SmartView::Done,
        SmartView::Archived,
        SmartView::Trash,
        SmartView::Saved(SavedViewId { value: 1 }),
        SmartView::Saved(SavedViewId::new()),
    ];
    for view in views {
        assert_eq!(smart_view_from_setting(&smart_view_setting(view)), view);
    }
}

#[test]
fn legacy_and_unknown_view_settings_open_fallback_views() {
    assert_eq!(smart_view_from_setting("inbox"), SmartView::All);
    assert_eq!(smart_view_from_setting("project:abc"), SmartView::All);
    assert_eq!(smart_view_from_setting("tag:abc"), SmartView::All);
    assert_eq!(smart_view_from_setting("somewhere"), SmartView::Today);
    assert_eq!(smart_view_from_setting("saved:not-an-id"), SmartView::Today);
    assert_eq!(
        smart_view_from_setting("saved:00000000-0000-0000-0000-000000000001"),
        SmartView::Saved(SavedViewId { value: 1 })
    );
}

#[test]
fn undoing_a_bulk_update_restores_the_tasks() {
    let mut tasks = vec![task(1, "one", 0), task(2, "two", 0), task(3, "three", 0)];
    let before = copies(&tasks);
    let selected = vec![TaskId { value: 1 }, TaskId { value: 3 }];
    let now = Timestamp::unix_epoch().plus_seconds(60).unwrap();
    let changes = bulk_update(&mut tasks, &selected, TaskUpdate::Status(TaskStatus::Done), now);
    assert_eq!(changes.len(), 2);
    assert_eq!(tasks[0].status, TaskStatus::Done);
    assert_eq!(tasks[0].progress, 100);
    assert_eq!(tasks[1].status, TaskStatus::Todo);
    let after = copies(&tasks);
    let entry = HistoryEntry::tasks(changes);
    apply_history(&mut tasks, &mut Vec::new(), &mut Vec::new(), &entry, false);
    assert!(same_tasks(&tasks, &before));
    apply_history(&mut tasks, &mut Vec::new(), &mut Vec::new(), &entry, true);
    assert!(same_tasks(&tasks, &after));
}

#[test]
fn a_bulk_update_that_changes_nothing_records_nothing() {
    let mut tasks = vec![task(1, "one", 0)];
    let selected = vec![TaskId { value: 1 }];
    let changes = bulk_update(
        &mut tasks,
        &selected,
        TaskUpdate::Status(TaskStatus::Todo),
        Timestamp::unix_epoch(),
    );
    assert!(changes.is_empty());
}

#[test]
fn undoing_a_creation_removes_the_task() {
    let mut tasks = vec![task(1, "one", 0)];
    let before = copies(&tasks);
    let created = task(2, "two", 5);
    let entry = HistoryEntry::tasks(vec![TaskChange { before: None, after: Some(created) }]);
    apply_history(&mut tasks, &mut Vec::new(), &mut Vec::new(), &entry, true);
    assert_eq!(tasks.len(), 2);
    apply_history(&mut tasks, &mut Vec::new(), &mut Vec::new(), &entry, false);
    assert!(same_tasks(&tasks, &before));
}

#[test]
fn undoing_a_rank_swap_restores_both_ranks() {
    let mut tasks = vec![task(1, "one", 0), task(2, "two", 0), task(3, "three", 0)];
    tasks[0].sort_order = 1024;
    tasks[1].sort_order = 2048;
    tasks[2].sort_order = 3072;
    let before = copies(&tasks);
    let changes = swap_sort_orders(&mut tasks, TaskId { value: 3 }, TaskId { value: 1 }).unwrap();
    assert_eq!(tasks[0].sort_order, 3072);
    assert_eq!(tasks[2].sort_order, 1024);
    assert_eq!(tasks[1].sort_order, 2048);
    let entry = HistoryEntry::tasks(changes);
    apply_history(&mut tasks, &mut Vec::new(), &mut Vec::new(), &entry, false);
    assert!(same_tasks(&tasks, &before));
}

#[test]
fn swapping_a_task_with_itself_or_a_missing_task_does_nothing() {
    let mut tasks = vec![task(1, "one", 0)];
    assert!(swap_sort_orders(&mut tasks, TaskId { value: 1 }, TaskId { value: 1 }).is_none());
    assert!(swap_sort_orders(&mut tasks, TaskId { value: 1 }, TaskId { value: 9 }).is_none());
}

#[test]
fn history_keeps_fifty_entries_and_a_new_action_clears_redo() {
    let mut history = History::new();
    for n in 0..60u128 {
        history.push_task_changes(vec![TaskChange { before: None, after: Some(task(n, "t", 0)) }]);
    }
    assert_eq!(history.undo_stack.len(), 50);
    let oldest = history.undo_stack[0].task_changes[0].after.as_ref().unwrap().id;
    assert_eq!(oldest, TaskId { value: 10 });
    let entry = history.take_undo().unwrap();
    history.finish_undo(entry, true);
    assert_eq!(history.redo_stack.len(), 1);
    history.push_task_changes(vec![TaskChange { before: None, after: Some(task(99, "t", 0)) }]);
    assert!(history.redo_stack.is_empty());
    history.push_task_changes(Vec::new());
    assert_eq!(history.undo_stack.len(), 50);
}

#[test]
fn a_failed_undo_goes_back_on_the_undo_stack() {
    let mut history = History::new();
    history.push_task_changes(vec![TaskChange { before: None, after: Some(task(1, "t", 0)) }]);
    let entry = history.take_undo().unwrap();
    history.finish_undo(entry, false);
    assert_eq!(history.undo_stack.len(), 1);
    assert!(history.redo_stack.is_empty());
    assert!(history.take_redo().is_none());
}

#[test]
fn sorting_by_due_puts_undated_tasks_last() {
    let mut dated = task(1, "dated", 0);
    dated.due = hodoq::task::Due::Date(CivilDate::new(2026, 8, 28).unwrap());
    let undated = task(2, "undated", 0);
    let mut earlier = task(3, "earlier", 0);
    earlier.due = hodoq::task::Due::Date(CivilDate::new(2026, 8, 1).unwrap());
    let tasks = vec![undated, dated, earlier];
    let sort = [SortSpec { field: SortField::Due, direction: SortDirection::Ascending }];
    let sorted = sort_tasks(&tasks, &sort, &UtcOffset::utc());
    let titles: Vec<&str> = sorted.iter().map(|t| t.title.as_str()).collect();
    assert_eq!(titles, ["earlier", "dated", "undated"]);
}

#[test]
fn sorting_by_priority_descending_puts_high_first_and_ties_follow_identifiers() {
    let mut a = task(2, "b-low", 0);
    a.priority = Priority::Low;
    let mut b = task(1, "a-low", 0);
    b.priority = Priority::Low;
    let mut c = task(3, "high", 0);
    c.priority = Priority::High;
    let tasks = vec![a, b, c];
    let sort = [SortSpec { field: SortField::Priority, direction: SortDirection::Descending }];
    let sorted = sort_tasks(&tasks, &sort, &UtcOffset::utc());
    let titles: Vec<&str> = sorted.iter().map(|t| t.title.as_str()).collect();
    assert_eq!(titles, ["high", "a-low", "b-low"]);
}

#[test]
fn due_input_text_reads_back_as_the_same_due() {
    let offsets = [UtcOffset::utc(), UtcOffset::from_whole_seconds(9 * 3600).unwrap(), UtcOffset::from_whole_seconds(-(5 * 3600 + 30 * 60)).unwrap()];
    for offset in offsets {
        let dues = [
            hodoq::task::Due::Unset,
            hodoq::task::Due::Date(CivilDate::new(2026, 2, 28).unwrap()),
            hodoq::task::Due::Date(CivilDate::new(-44, 3, 15).unwrap()),
            hodoq::task::Due::Date(CivilDate::new(7, 1, 1).unwrap()),
            hodoq::task::Due::DateTime(hodoq::calendar::instant_at(&CivilDate::new(2026, 8, 28).unwrap(), 23, 59, &offset).unwrap()),
        ];
        for due in dues {
            let text = format_due_input_at(&due, &offset);
            assert_eq!(parse_due_at(&text, &offset).unwrap(), due, "{text}");
        }
    }
}

#[test]
fn saving_the_detail_pane_unedited_changes_nothing() {
    let offset = UtcOffset::from_whole_seconds(9 * 3600).unwrap();
    let mut t = task(1, "title", 0);
    t.memo = "memo".to_owned();
    t.progress = 35;
    t.due = hodoq::task::Due::DateTime(hodoq::calendar::instant_at(&CivilDate::new(2026, 9, 1).unwrap(), 8, 15, &offset).unwrap());
    let inputs = detail_inputs(&t, &offset);
    assert_eq!(inputs.due, "2026-09-01 08:15");
    assert_eq!(inputs.progress, "35");
    let saved = edit_from_form(&t, &inputs.title, &inputs.memo, &inputs.due, &inputs.progress, Timestamp::unix_epoch(), &offset);
    assert!(matches!(saved, Ok(None)));
}

#[test]
fn project_and_tag_changes_are_restored_and_planned_for_storage() {
    let home = Project { id: ProjectId { value: 1 }, name: "Home".to_string() };
    let renamed = Project { id: ProjectId { value: 1 }, name: "House".to_string() };
    let created = Project { id: ProjectId { value: 2 }, name: "Work".to_string() };
    let urgent = Tag { id: TagId { value: 7 }, name: "urgent".to_string() };
    let entry = HistoryEntry {
        task_changes: Vec::new(),
        project_changes: vec![
            ProjectChange { before: Some(home.clone()), after: Some(renamed.clone()) },
            ProjectChange { before: None, after: Some(created.clone()) },
        ],
        tag_changes: vec![TagChange { before: Some(urgent.clone()), after: None }],
    };
    let mut tasks: Vec<Task> = Vec::new();
    let mut projects = vec![home.clone()];
    let mut tags = vec![urgent.clone()];
    apply_history(&mut tasks, &mut projects, &mut tags, &entry, true);
    let names: Vec<&str> = projects.iter().map(|p| p.name.as_str()).collect();
    assert_eq!(names, ["House", "Work"]);
    assert!(tags.is_empty());
    let plan = store_plan(&entry, true);
    assert!(!plan.save_tasks);
    assert_eq!(plan.projects_to_save.len(), 2);
    assert!(plan.projects_to_delete.is_empty());
    assert!(plan.tags_to_save.is_empty());
    assert_eq!(plan.tags_to_delete, vec![TagId { value: 7 }]);

    apply_history(&mut tasks, &mut projects, &mut tags, &entry, false);
    let names: Vec<&str> = projects.iter().map(|p| p.name.as_str()).collect();
    assert_eq!(names, ["Home"]);
    assert_eq!(tags.len(), 1);
    assert_eq!(tags[0].name, "urgent");
    let plan = store_plan(&entry, false);
    assert_eq!(plan.projects_to_save.len(), 1);
    assert_eq!(plan.projects_to_save[0].name, "Home");
    assert_eq!(plan.projects_to_delete, vec![ProjectId { value: 2 }]);
    assert_eq!(plan.tags_to_save.len(), 1);
    assert!(plan.tags_to_delete.is_empty());
}

#[test]
fn the_task_order_is_transitive_without_mixed_due_kinds() {
    let mut a = task(3, "alpha", 0);
    let mut b = task(1, "alpha", 0);
    let mut c = task(2, "beta", 0);
    a.priority = Priority::High;
    b.priority = Priority::High;
    c.priority = Priority::Low;
    let sort = [
        SortSpec { field: SortField::Priority, direction: SortDirection::Descending },
        SortSpec { field: SortField::Title, direction: SortDirection::Ascending },
    ];
    let offset = UtcOffset::utc();
    assert_eq!(compare_tasks(&b, &a, &sort, &offset), Ordering::Less);
    assert_eq!(compare_tasks(&a, &c, &sort, &offset), Ordering::Less);
    assert_eq!(compare_tasks(&b, &c, &sort, &offset), Ordering::Less);
}

#[test]
fn a_date_between_two_instants_of_its_day_closes_a_cycle() {
    let day = CivilDate::new(2026, 8, 28).unwrap();
    let offset = UtcOffset::utc();
    let mut early = task(3, "early", 0);
    early.due = hodoq::task::Due::DateTime(hodoq::calendar::instant_at(&day, 9, 0, &offset).unwrap());
    let mut late = task(1, "late", 0);
    late.due = hodoq::task::Due::DateTime(hodoq::calendar::instant_at(&day, 10, 0, &offset).unwrap());
    let mut dated = task(2, "dated", 0);
    dated.due = hodoq::task::Due::Date(day);
    let sort = [SortSpec { field: SortField::Due, direction: SortDirection::Ascending }];
    assert_eq!(compare_tasks(&early, &late, &sort, &offset), Ordering::Less);
    assert_eq!(compare_tasks(&late, &dated, &sort, &offset), Ordering::Less);
    assert_eq!(compare_tasks(&dated, &early, &sort, &offset), Ordering::Less);
}

#[test]
fn a_sorted_list_is_in_order_pairwise() {
    let mut tasks = Vec::new();
    for (n, title, priority) in [(4, "d", Priority::Low), (2, "b", Priority::High), (5, "a", Priority::Medium), (1, "c", Priority::High), (3, "e", Priority::Unset)] {
        let mut t = task(n, title, 0);
        t.priority = priority;
        tasks.push(t);
    }
    let sort = [
        SortSpec { field: SortField::Priority, direction: SortDirection::Descending },
        SortSpec { field: SortField::Title, direction: SortDirection::Ascending },
    ];
    let offset = UtcOffset::utc();
    let sorted = sort_tasks(&tasks, &sort, &offset);
    for i in 0..sorted.len() {
        for j in i + 1..sorted.len() {
            assert_ne!(compare_tasks(&sorted[i], &sorted[j], &sort, &offset), Ordering::Greater);
        }
    }
    let titles: Vec<&str> = sorted.iter().map(|t| t.title.as_str()).collect();
    assert_eq!(titles, ["b", "c", "a", "d", "e"]);
}

#[test]
fn redoing_after_undoing_a_creation_or_a_removal_gives_back_the_state() {
    let mut tasks = vec![task(1, "one", 0), task(2, "two", 0)];
    let created = HistoryEntry::tasks(vec![TaskChange { before: None, after: Some(task(3, "three", 0)) }]);
    apply_history(&mut tasks, &mut Vec::new(), &mut Vec::new(), &created, true);
    let after = copies(&tasks);
    apply_history(&mut tasks, &mut Vec::new(), &mut Vec::new(), &created, false);
    apply_history(&mut tasks, &mut Vec::new(), &mut Vec::new(), &created, true);
    assert!(same_tasks(&tasks, &after));

    let removed = HistoryEntry::tasks(vec![TaskChange { before: Some(task(1, "one", 0)), after: None }]);
    apply_history(&mut tasks, &mut Vec::new(), &mut Vec::new(), &removed, true);
    let after = copies(&tasks);
    apply_history(&mut tasks, &mut Vec::new(), &mut Vec::new(), &removed, false);
    assert_eq!(tasks.len(), 3);
    apply_history(&mut tasks, &mut Vec::new(), &mut Vec::new(), &removed, true);
    assert!(same_tasks(&tasks, &after));

    let home = Project { id: ProjectId { value: 1 }, name: "Home".to_string() };
    let entry = HistoryEntry {
        task_changes: Vec::new(),
        project_changes: vec![ProjectChange { before: None, after: Some(home.clone()) }],
        tag_changes: Vec::new(),
    };
    let mut projects = Vec::new();
    let mut tags: Vec<Tag> = Vec::new();
    apply_history(&mut tasks, &mut projects, &mut tags, &entry, true);
    apply_history(&mut tasks, &mut projects, &mut tags, &entry, false);
    assert!(projects.is_empty());
    apply_history(&mut tasks, &mut projects, &mut tags, &entry, true);
    assert_eq!(projects.len(), 1);
    assert_eq!(projects[0].name, "Home");
}

#[test]
fn a_failed_undo_rolls_the_tasks_back_and_keeps_the_entry() {
    let mut tasks = vec![task(1, "one", 0)];
    let mut projects: Vec<Project> = Vec::new();
    let mut tags: Vec<Tag> = Vec::new();
    let mut history = History::new();
    let mut edited = task(1, "one", 0);
    edited.title = "uno".to_string();
    history.push_task_changes(vec![TaskChange { before: Some(task(1, "one", 0)), after: Some(edited.copy()) }]);
    tasks[0] = edited.copy();
    let entry = begin_history_step(&mut history, &mut tasks, &mut projects, &mut tags, true).unwrap();
    assert_eq!(tasks[0].title, "one");
    settle_history_step(&mut history, &mut tasks, &mut projects, &mut tags, entry, true, false);
    assert_eq!(tasks[0].title, "uno");
    assert_eq!(history.undo_stack.len(), 1);
    assert!(history.redo_stack.is_empty());
    let entry = begin_history_step(&mut history, &mut tasks, &mut projects, &mut tags, true).unwrap();
    settle_history_step(&mut history, &mut tasks, &mut projects, &mut tags, entry, true, true);
    assert_eq!(tasks[0].title, "one");
    assert_eq!(history.redo_stack.len(), 1);
    let entry = begin_history_step(&mut history, &mut tasks, &mut projects, &mut tags, false).unwrap();
    settle_history_step(&mut history, &mut tasks, &mut projects, &mut tags, entry, false, true);
    assert_eq!(tasks[0].title, "uno");
    assert_eq!(history.undo_stack.len(), 1);
    assert!(begin_history_step(&mut history, &mut tasks, &mut projects, &mut tags, false).is_none());
}

#[test]
fn a_failed_save_rolls_the_edits_back() {
    let mut tasks = vec![task(1, "one", 0), task(2, "two", 0)];
    tasks[0].sort_order = 1024;
    tasks[1].sort_order = 2048;
    let before = copies(&tasks);
    let mut history = History::new();
    let changes = swap_sort_orders(&mut tasks, TaskId { value: 1 }, TaskId { value: 2 }).unwrap();
    settle_task_changes(&mut tasks, &mut history, changes, false);
    assert!(same_tasks(&tasks, &before));
    assert!(history.undo_stack.is_empty());

    let selected = vec![TaskId { value: 1 }, TaskId { value: 2 }];
    let now = Timestamp::unix_epoch().plus_seconds(60).unwrap();
    let changes = bulk_update(&mut tasks, &selected, TaskUpdate::Status(TaskStatus::Done), now);
    settle_task_changes(&mut tasks, &mut history, changes, false);
    assert!(same_tasks(&tasks, &before));

    let changes = bulk_update(&mut tasks, &selected, TaskUpdate::Status(TaskStatus::Done), now);
    settle_task_changes(&mut tasks, &mut history, changes, true);
    assert_eq!(tasks[0].status, TaskStatus::Done);
    assert_eq!(history.undo_stack.len(), 1);
}

#[test]
fn purging_the_trash_clears_what_pointed_at_the_purged_tasks() {
    let now = Timestamp::unix_epoch().plus_seconds(100 * 86_400).unwrap();
    let mut old = task(1, "old", 0);
    old.deleted_at = Some(Timestamp::unix_epoch().plus_seconds(60 * 86_400).unwrap());
    let mut recent = task(2, "recent", 0);
    recent.deleted_at = Some(Timestamp::unix_epoch().plus_seconds(90 * 86_400).unwrap());
    let mut tasks = vec![old, recent, task(3, "kept", 0)];
    let mut selection = SelectionState::new();
    selection.selected = vec![TaskId { value: 1 }, TaskId { value: 3 }];
    selection.selected_task = Some(TaskId { value: 1 });
    let mut title = Some((TaskId { value: 1 }, "x".to_string()));
    let mut memo = Some((TaskId { value: 3 }, "y".to_string()));
    let mut history = History::new();
    history.push_task_changes(vec![TaskChange { before: None, after: Some(task(9, "t", 0)) }]);

    assert_eq!(after_purge(&mut tasks, &mut selection, &mut title, &mut memo, &mut history, now, false), 0);
    assert_eq!(tasks.len(), 3);
    assert_eq!(history.undo_stack.len(), 1);

    assert_eq!(after_purge(&mut tasks, &mut selection, &mut title, &mut memo, &mut history, now, true), 1);
    assert_eq!(tasks.len(), 2);
    assert_eq!(selection.selected, vec![TaskId { value: 3 }]);
    assert_eq!(selection.selected_task, None);
    assert_eq!(title, None);
    assert!(memo.is_some());
    assert!(history.undo_stack.is_empty());
}

#[test]
fn the_editor_closes_only_after_a_successful_save() {
    let mut open = Some(TaskId { value: 1 });
    let mut draft: Option<NewTaskDraft> = None;
    assert!(!close_after_save(&mut open, &mut draft, false, true));
    assert_eq!(open, Some(TaskId { value: 1 }));
    assert!(!close_after_save(&mut open, &mut draft, true, false));
    assert_eq!(open, Some(TaskId { value: 1 }));
    assert!(close_after_save(&mut open, &mut draft, true, true));
    assert_eq!(open, None);
}

#[test]
fn shift_and_secondary_clicks_wait_for_pending_edits() {
    let visible = vec![TaskId { value: 1 }, TaskId { value: 2 }];
    let mut state = SelectionState::new();
    state.selected_task = Some(TaskId { value: 1 });
    assert_eq!(click_after_flush(&mut state, &visible, TaskId { value: 2 }, true, false, false), ClickAction::Ignore);
    assert!(state.selected.is_empty());
    assert_eq!(state.selected_task, Some(TaskId { value: 1 }));
    assert_eq!(click_after_flush(&mut state, &visible, TaskId { value: 2 }, true, false, true), ClickAction::Refresh);
    assert_eq!(state.selected.len(), 2);
    assert_eq!(click_after_flush(&mut state, &visible, TaskId { value: 1 }, false, false, false), ClickAction::Open(TaskId { value: 1 }));
}
