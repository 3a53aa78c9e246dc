use hodoq::backups::{
    backups_to_prune, daily_backup_due, daily_backup_name, is_sqlite_file, list_backup_files, stamped_file_name,
};
use hodoq::calendar::{
    clock_at, date_at, days_in_month_of, instant_at, shift_month, CivilDate, Timestamp, UtcOffset,
};
use hodoq::closing::{error_after_settings_save, retry_failure_message, settings_failure_message, view_preferences, CloseState, CloseStep, DropStep};
use hodoq::due::{errors_after_due_typing, format_due_display_at, format_due_input_at, parse_due_at};
use hodoq::editing::{
    apply_update, bulk_updated_message, change_task, duplicate_of, edit_from_form,
    new_task_from_form, next_sort_order, parse_progress, purged_message, remove_expired_trash,
    refreshed_status, save_failure_status, trash_after_pending_edits,
    remove_trashed, update_task, FormError, NewTaskDraft, TaskUpdate,
};
use hodoq::filters::{
    delete_saved_view, new_saved_view, set_filter_due_boundary, toggle_priority_filter,
    toggle_status_filter, update_saved_view,
};
use hodoq::ids::{ProjectId, SavedViewId, TagId, TaskId};
use hodoq::layouts::{
    agenda, board_column, board_neighbours, due_tone, listed_commands, month_grid, palette_action,
    priority_tone, sidebar_counts, time_choices, PaletteAction, PaletteCommand, Tone,
};
use hodoq::listing::{
    drag_swap_allowed, list_items, ListItem, can_reorder_list_pair, list_move_target, order_list_tasks, task_group_label, visible_tasks,
    LiveFilter,
};
use hodoq::catalog::Project;
use hodoq::query::{
    DueScope, GroupBy, SortDirection, SortField, SortSpec, TaskFilter, TaskQuery, ViewKind,
};
use hodoq::selection::{click_task, move_selection_index, toggled_done_status, ClickAction, SelectionState};
use hodoq::startup::{effective_sort, opening_state, panel_of_saved_view};
use hodoq::task::{Due, Priority, Task, TaskStatus};
use hodoq::text::{lowercase_chars, trim};
use hodoq::views::{management_view_name, SmartView};

fn at(seconds: i64) -> Timestamp {
    Timestamp::unix_epoch().plus_seconds(seconds).unwrap()
}

fn task(n: u128, title: &str) -> Task {
    Task::with_id(TaskId { value: n }, title, at(0)).unwrap()
}

fn date(y: i32, m: u8, d: u8) -> CivilDate {
    CivilDate::new(y, m, d).unwrap()
}

fn titles(tasks: &[Task]) -> Vec<String> {
    tasks.iter().map(|t| t.title.clone()).collect()
}

fn jst() -> UtcOffset {
    UtcOffset::from_whole_seconds(9 * 3600).unwrap()
}

#[test]
fn lowercasing_and_trimming_use_unicode_rules() {
    assert_eq!(lowercase_chars("ÄBC Task").into_iter().collect::<String>(), "äbc task");
    assert_eq!(trim("\u{3000} 全角 \t"), "全角");
}

#[test]
fn calendar_conversions_follow_the_offset() {
    let t = at(15 * 3600);
    assert_eq!(date_at(&t, &UtcOffset::utc()), date(1970, 1, 1));
    assert_eq!(date_at(&t, &jst()), date(1970, 1, 2));
    assert_eq!(clock_at(&t, &jst()), (0, 0));
    assert_eq!(date(1970, 1, 1).day_number(), 2_440_588);
    assert_eq!(days_in_month_of(&date(2024, 2, 10)), 29);
    assert_eq!(days_in_month_of(&date(2023, 2, 10)), 28);
    let instant = instant_at(&date(1970, 1, 2), 0, 0, &jst()).unwrap();
    assert_eq!(instant, t);
    assert_eq!(shift_month(&date(2026, 12, 15), 1), date(2027, 1, 1));
    assert_eq!(shift_month(&date(2026, 1, 15), -1), date(2025, 12, 1));
    assert!(CivilDate::new(2026, 2, 29).is_none());
}

#[test]
fn the_clock_and_the_local_offset_are_in_range() {
    let now = Timestamp::now();
    assert!(now.nanos > 1_600_000_000_000_000_000);
    let offset = UtcOffset::current_local();
    assert!(offset.seconds.abs() <= 93_599);
}

#[test]
fn identifiers_print_and_parse_as_hyphenated_uuids() {
    let id = SavedViewId { value: 1 };
    assert_eq!(id.text(), "00000000-0000-0000-0000-000000000001");
    assert_eq!(SavedViewId::parse(&id.text()), Some(id));
    assert_eq!(SavedViewId::parse("nonsense"), None);
    assert_eq!(TaskId { value: 0xff }.text(), "00000000-0000-0000-0000-0000000000ff");
    assert_ne!(TaskId::new(), TaskId::new());
}

#[test]
fn due_dates_read_and_print_at_an_offset() {
    assert_eq!(parse_due_at("  ", &jst()).unwrap(), Due::Unset);
    let due = parse_due_at("2026-08-28 09:00", &jst()).unwrap();
    assert_eq!(due, Due::DateTime(instant_at(&date(2026, 8, 28), 9, 0, &jst()).unwrap()));
    assert_eq!(format_due_input_at(&due, &jst()), "2026-08-28 09:00");
    assert_eq!(format_due_input_at(&due, &UtcOffset::utc()), "2026-08-28 00:00");
    assert_eq!(format_due_display_at(&due, &jst()), "期限 2026-08-28 09:00");
    assert_eq!(format_due_display_at(&Due::Unset, &jst()), "");
    assert_eq!(
        parse_due_at("2026-02-30", &jst()).unwrap_err(),
        "納期は YYYY-MM-DD または YYYY-MM-DD HH:MM で入力してください"
    );
}

#[test]
fn the_new_task_form_checks_due_then_progress_then_title() {
    let draft = NewTaskDraft::default();
    let tasks = vec![task(1, "a")];
    let offset = UtcOffset::utc();
    match new_task_from_form(&draft, "", "", "bad", "500", &tasks, at(1), &offset) {
        Err(FormError::Due(m)) => assert!(m.starts_with("納期は")),
        other => panic!("{other:?}"),
    }
    match new_task_from_form(&draft, "", "", "", "500", &tasks, at(1), &offset) {
        Err(FormError::Progress(m)) => assert_eq!(m, "進捗は0〜100の整数で入力してください"),
        other => panic!("{other:?}"),
    }
    match new_task_from_form(&draft, "  ", "", "", "10", &tasks, at(1), &offset) {
        Err(FormError::Title(m)) => assert_eq!(m, "タイトルは1〜500文字で入力してください"),
        other => panic!("{other:?}"),
    }
    let mut done = NewTaskDraft::default();
    done.set_status(TaskStatus::Done);
    assert_eq!(done.progress, 100);
    done.set_status(TaskStatus::Doing);
    assert_eq!(done.progress, 0);
    done.set_priority(Priority::High);
    let created =
        new_task_from_form(&done, "new", "memo", "2026-08-30", " 40 ", &tasks, at(1), &offset).unwrap();
    assert_eq!(created.title, "new");
    assert_eq!(created.memo, "memo");
    assert_eq!(created.status, TaskStatus::Doing);
    assert_eq!(created.priority, Priority::High);
    assert_eq!(created.progress, 40);
    assert_eq!(created.due, Due::Date(date(2026, 8, 30)));
    assert_eq!(created.sort_order, 1024);
}

#[test]
fn ranks_and_progress_inputs() {
    let mut a = task(1, "a");
    a.sort_order = -5;
    let mut b = task(2, "b");
    b.sort_order = 4096;
    assert_eq!(next_sort_order(&vec![a, b]), 5120);
    assert_eq!(next_sort_order(&Vec::new()), 1024);
    let mut c = task(3, "c");
    c.sort_order = -100;
    assert_eq!(next_sort_order(&vec![c]), 924);
    assert_eq!(parse_progress(" 100 "), Some(100));
    assert_eq!(parse_progress("+7"), Some(7));
    assert_eq!(parse_progress("101"), None);
    assert_eq!(parse_progress("-1"), None);
    assert_eq!(parse_progress(""), None);
}

#[test]
fn duplicates_copy_content_with_a_new_title_and_rank() {
    let mut source = task(1, "draft");
    source.memo = "draft memo".to_owned();
    source.priority = Priority::Medium;
    source.sort_order = 2048;
    let tasks = vec![source.copy()];
    let copy = duplicate_of(&source, &tasks, at(9)).unwrap();
    assert_eq!(copy.title, "draft のコピー");
    assert_eq!(copy.memo, "draft memo");
    assert_eq!(copy.priority, Priority::Medium);
    assert_eq!(copy.sort_order, 3072);
    assert_eq!(copy.created_at, at(9));
    assert_ne!(copy.id, source.id);
    let long = task(2, &"x".repeat(496));
    assert!(duplicate_of(&long, &tasks, at(9)).is_none());
}

#[test]
fn the_detail_form_saves_only_real_changes() {
    let before = task(1, "title");
    let offset = UtcOffset::utc();
    assert!(matches!(edit_from_form(&before, "title", "", "", "0", at(5), &offset), Ok(None)));
    let edited = edit_from_form(&before, "title", "", "2026-01-02", "5", at(5), &offset)
        .unwrap()
        .unwrap();
    assert_eq!(edited.progress, 5);
    assert_eq!(edited.updated_at, at(5));
    assert!(matches!(
        edit_from_form(&before, "", "", "bad", "500", at(5), &offset),
        Err(FormError::Title(_))
    ));
    assert!(matches!(
        edit_from_form(&before, "t", "", "bad", "500", at(5), &offset),
        Err(FormError::Due(_))
    ));
    assert!(matches!(
        edit_from_form(&before, "t", "", "", "500", at(5), &offset),
        Err(FormError::Progress(_))
    ));
}

#[test]
fn single_updates_record_changes_only_when_something_changed() {
    let mut tasks = vec![task(1, "a")];
    assert!(update_task(&mut tasks, TaskId { value: 1 }, TaskUpdate::Status(TaskStatus::Todo), at(3)).is_none());
    assert!(update_task(&mut tasks, TaskId { value: 9 }, TaskUpdate::Priority(Priority::High), at(3)).is_none());
    let change = update_task(&mut tasks, TaskId { value: 1 }, TaskUpdate::Priority(Priority::High), at(3)).unwrap();
    assert_eq!(change.before.unwrap().priority, Priority::Unset);
    assert_eq!(tasks[0].priority, Priority::High);
    assert_eq!(tasks[0].updated_at, at(3));
    let due = Due::Date(date(2026, 1, 1));
    assert!(update_task(&mut tasks, TaskId { value: 1 }, TaskUpdate::EditDue(due), at(4)).is_some());
    assert!(update_task(&mut tasks, TaskId { value: 1 }, TaskUpdate::EditDue(due), at(5)).is_none());
    let trashed = change_task(&mut tasks, TaskId { value: 1 }, TaskUpdate::Trash, at(6)).unwrap();
    assert_eq!(trashed.after.unwrap().deleted_at, Some(at(6)));
    let mut t = task(2, "b");
    apply_update(&mut t, TaskUpdate::Progress(150), at(7));
    assert_eq!(t.progress, 0);
    assert_eq!(t.updated_at, at(7));
}

#[test]
fn trash_expires_after_thirty_days() {
    let day = 86_400;
    let now = at(100 * day);
    let mut recent = task(1, "recent");
    recent.deleted_at = Some(at(71 * day));
    let mut expired = task(2, "expired");
    expired.deleted_at = Some(at(70 * day));
    let active = task(3, "active");
    let mut tasks = vec![recent, expired, active];
    let removed = remove_expired_trash(&mut tasks, now);
    assert_eq!(removed, vec![TaskId { value: 2 }]);
    assert_eq!(titles(&tasks), ["recent", "active"]);
    remove_trashed(&mut tasks);
    assert_eq!(titles(&tasks), ["active"]);
    assert_eq!(purged_message(3), "期限切れのゴミ箱タスクを3件削除しました");
    assert_eq!(bulk_updated_message(12), "12件を一括更新しました");
}

#[test]
fn visible_tasks_combine_search_filter_view_and_sort() {
    let mut a = task(1, "Write Report");
    a.sort_order = 3;
    let mut b = task(2, "read mail");
    b.sort_order = 1;
    b.priority = Priority::High;
    let mut c = task(3, "report archive");
    c.status = TaskStatus::Archived;
    let mut d = task(4, "REPORT trash");
    d.deleted_at = Some(at(1));
    let mut e = task(5, "other");
    e.memo = "about the report".to_owned();
    e.sort_order = 2;
    let tasks = vec![a, b, c, d, e];
    let live = LiveFilter::cleared();
    let sort = vec![SortSpec::default()];
    let shown = visible_tasks(
        &tasks, "report", &live, SmartView::All, &Vec::new(), &sort, ViewKind::Board, None,
        &Vec::new(), at(0), UtcOffset::utc(),
    );
    assert_eq!(titles(&shown), ["other", "Write Report"]);
    let trash = visible_tasks(
        &tasks, "REPORT", &live, SmartView::Trash, &Vec::new(), &sort, ViewKind::List, None,
        &Vec::new(), at(0), UtcOffset::utc(),
    );
    assert_eq!(titles(&trash), ["REPORT trash"]);
    let list = visible_tasks(
        &tasks, "", &live, SmartView::All, &Vec::new(), &sort, ViewKind::List, None,
        &Vec::new(), at(0), UtcOffset::utc(),
    );
    assert_eq!(titles(&list), ["read mail", "other", "Write Report"]);
    let mut high_only = LiveFilter::cleared();
    high_only.priorities.push(Priority::High);
    let filtered = visible_tasks(
        &tasks, "", &high_only, SmartView::All, &Vec::new(), &sort, ViewKind::List, None,
        &Vec::new(), at(0), UtcOffset::utc(),
    );
    assert_eq!(titles(&filtered), ["read mail"]);
}

#[test]
fn saved_views_apply_their_filter_and_vanish_when_gone() {
    let mut a = task(1, "doing");
    a.status = TaskStatus::Doing;
    let b = task(2, "todo");
    let tasks = vec![a, b];
    let mut filter = TaskFilter::empty();
    filter.statuses.push(TaskStatus::Doing);
    let view = hodoq::query::SavedView {
        id: SavedViewId { value: 7 },
        name: "作業中".to_owned(),
        view_kind: ViewKind::List,
        filter,
        sort: Vec::new(),
        group_by: None,
        sort_order: 0,
        created_at: at(0),
        updated_at: at(0),
    };
    let saved = vec![view];
    let live = LiveFilter::cleared();
    let sort = vec![SortSpec::default()];
    let shown = visible_tasks(
        &tasks, "", &live, SmartView::Saved(SavedViewId { value: 7 }), &saved, &sort,
        ViewKind::List, None, &Vec::new(), at(0), UtcOffset::utc(),
    );
    assert_eq!(titles(&shown), ["doing"]);
    let gone = visible_tasks(
        &tasks, "", &live, SmartView::Saved(SavedViewId { value: 8 }), &saved, &sort,
        ViewKind::List, None, &Vec::new(), at(0), UtcOffset::utc(),
    );
    assert!(gone.is_empty());
    let panel = panel_of_saved_view(&saved[0], &UtcOffset::utc());
    assert_eq!(panel.live.statuses, vec![TaskStatus::Doing]);
    assert_eq!(panel.sort, vec![SortSpec::default()]);
    assert_eq!(panel.query, "");
}

#[test]
fn list_groups_headings_and_reordering() {
    let projects = vec![Project { id: hodoq::ids::ProjectId { value: 1 }, name: "仕事".to_owned() }];
    let mut a = task(1, "a");
    a.project_id = Some(hodoq::ids::ProjectId { value: 1 });
    a.sort_order = 1;
    let mut b = task(2, "b");
    b.sort_order = 2;
    let mut c = task(3, "c");
    c.sort_order = 3;
    c.due = Due::Date(date(2026, 8, 28));
    let offset = UtcOffset::utc();
    assert_eq!(task_group_label(&a, GroupBy::Project, &projects, &offset), "仕事");
    assert_eq!(task_group_label(&b, GroupBy::Project, &projects, &offset), "プロジェクトなし");
    assert_eq!(task_group_label(&b, GroupBy::Priority, &projects, &offset), "優先度 なし");
    assert_eq!(task_group_label(&b, GroupBy::Status, &projects, &offset), "未着手");
    assert_eq!(task_group_label(&b, GroupBy::Due, &projects, &offset), "納期未定");
    assert_eq!(task_group_label(&c, GroupBy::Due, &projects, &offset), "2026-08-28");
    let mut list = vec![a.copy(), b.copy(), c.copy()];
    order_list_tasks(&mut list, Some(GroupBy::Project), &projects, &offset);
    assert_eq!(titles(&list), ["b", "c", "a"]);
    let manual = [SortSpec::default()];
    assert!(can_reorder_list_pair(&b, &c, &manual, None, &projects, &offset));
    assert!(!can_reorder_list_pair(&b, &c, &manual, Some(GroupBy::Due), &projects, &offset));
    let by_title = [SortSpec { field: SortField::Title, direction: SortDirection::Ascending }];
    assert!(!can_reorder_list_pair(&b, &c, &by_title, None, &projects, &offset));
    let descending = [SortSpec { field: SortField::Manual, direction: SortDirection::Descending }];
    assert!(can_reorder_list_pair(&b, &c, &descending, None, &projects, &offset));
    let rows = vec![a.copy(), b.copy(), c.copy()];
    assert_eq!(list_move_target(&rows, 1, -1, &manual, None, &projects, &offset), Some(0));
    assert_eq!(list_move_target(&rows, 0, -1, &manual, None, &projects, &offset), None);
    assert_eq!(list_move_target(&rows, 2, 1, &manual, None, &projects, &offset), None);
    assert_eq!(list_move_target(&rows, 1, 2, &manual, None, &projects, &offset), None);
}

#[test]
fn clicks_select_ranges_and_toggle() {
    let visible: Vec<TaskId> = (1..=5).map(|n| TaskId { value: n }).collect();
    let mut state = SelectionState::new();
    assert_eq!(click_task(&mut state, &visible, TaskId { value: 2 }, false, false), ClickAction::Open(TaskId { value: 2 }));
    state.open(TaskId { value: 2 });
    assert_eq!(click_task(&mut state, &visible, TaskId { value: 4 }, true, false), ClickAction::Refresh);
    let mut selected = state.selected.clone();
    selected.sort_by_key(|id| id.value);
    assert_eq!(selected, vec![TaskId { value: 2 }, TaskId { value: 3 }, TaskId { value: 4 }]);
    assert_eq!(state.selected_task, Some(TaskId { value: 4 }));
    assert_eq!(state.anchor, Some(TaskId { value: 2 }));
    assert_eq!(click_task(&mut state, &visible, TaskId { value: 3 }, false, true), ClickAction::Refresh);
    assert!(!state.selected.contains(&TaskId { value: 3 }));
    assert_eq!(click_task(&mut state, &visible, TaskId { value: 9 }, true, false), ClickAction::Ignore);
    assert_eq!(move_selection_index(5, Some(0), -1), Some(0));
    assert_eq!(move_selection_index(5, Some(4), 1), Some(4));
    assert_eq!(move_selection_index(5, None, -1), Some(4));
    assert_eq!(move_selection_index(5, None, 1), Some(0));
    assert_eq!(move_selection_index(0, None, 1), None);
    assert_eq!(toggled_done_status(TaskStatus::Done), TaskStatus::Todo);
    assert_eq!(toggled_done_status(TaskStatus::Blocked), TaskStatus::Done);
}

#[test]
fn filter_panel_toggles_and_due_range() {
    let mut statuses = vec![TaskStatus::Todo];
    toggle_status_filter(&mut statuses, TaskStatus::Done);
    toggle_status_filter(&mut statuses, TaskStatus::Todo);
    assert_eq!(statuses, vec![TaskStatus::Done]);
    let mut priorities = Vec::new();
    toggle_priority_filter(&mut priorities, Priority::Low);
    assert_eq!(priorities, vec![Priority::Low]);
    let mut live = LiveFilter::cleared();
    assert_eq!(
        set_filter_due_boundary(&mut live, true, "2026/08/01").unwrap(),
        "納期範囲は YYYY-MM-DD で入力してください"
    );
    assert!(live.due_from.is_none());
    assert!(set_filter_due_boundary(&mut live, true, "2026-08-10").is_none());
    assert_eq!(
        set_filter_due_boundary(&mut live, false, "2026-08-01").unwrap(),
        "納期範囲の開始日は終了日以前にしてください"
    );
    assert_eq!(live.due_to, Some(date(2026, 8, 1)));
    assert!(set_filter_due_boundary(&mut live, true, " ").is_none());
    assert!(live.due_from.is_none());
}

#[test]
fn saved_views_are_named_created_updated_and_deleted() {
    let mut live = LiveFilter::cleared();
    live.due = DueScope::Overdue;
    let sort = vec![SortSpec::default()];
    let offset = UtcOffset::utc();
    let mut saved = Vec::new();
    let view = new_saved_view(" 週次 ", ViewKind::Board, &live, None, "q", &sort, None, &saved, at(1), &offset).unwrap();
    assert_eq!(view.name, "週次");
    assert_eq!(view.filter.due_scope, DueScope::Overdue);
    assert_eq!(view.sort_order, 0);
    let id = view.id;
    saved.push(view);
    assert_eq!(management_view_name(SmartView::Saved(id), &saved), "週次");
    assert_eq!(management_view_name(SmartView::Today, &saved), "");
    assert_eq!(management_view_name(SmartView::Saved(SavedViewId { value: 12345 }), &saved), "");
    assert_eq!(
        new_saved_view("週次", ViewKind::List, &live, None, "", &sort, None, &saved, at(1), &offset).unwrap_err(),
        "同じ名前の保存済みビューが既にあります"
    );
    assert_eq!(
        new_saved_view("   ", ViewKind::List, &live, None, "", &sort, None, &saved, at(1), &offset).unwrap_err(),
        "保存ビュー名は1〜100文字で入力してください"
    );
    let index = update_saved_view(&mut saved, id, "", ViewKind::Calendar, &live, "new query", &sort, None, at(2), &offset)
        .unwrap()
        .unwrap();
    assert_eq!(saved[index].name, "週次");
    assert_eq!(saved[index].view_kind, ViewKind::Calendar);
    assert_eq!(saved[index].filter.query, "new query");
    assert_eq!(saved[index].updated_at, at(2));
    let mut active = SmartView::Saved(id);
    delete_saved_view(&mut saved, id, &mut active);
    assert!(saved.is_empty());
    assert_eq!(active, SmartView::All);
}

#[test]
fn opening_state_falls_back_to_all() {
    let today = date(2026, 8, 28);
    let offset = UtcOffset::utc();
    let mut due_today = task(1, "today");
    due_today.due = Due::Date(today);
    let state = opening_state(true, &vec![task(2, "x")], "doing", ViewKind::List, &Vec::new(), Some(GroupBy::Project), &Vec::new(), &today, &offset);
    assert_eq!(state.active_view, SmartView::All);
    assert_eq!(state.panel.group_by, None);
    assert_eq!(state.calendar_month, date(2026, 8, 1));
    let state = opening_state(true, &vec![due_today], "doing", ViewKind::Board, &Vec::new(), Some(GroupBy::Status), &Vec::new(), &today, &offset);
    assert_eq!(state.active_view, SmartView::Doing);
    assert_eq!(state.panel.view_kind, ViewKind::Board);
    assert_eq!(state.panel.group_by, Some(GroupBy::Status));
    let state = opening_state(false, &Vec::new(), "saved:00000000-0000-0000-0000-000000000001", ViewKind::List, &Vec::new(), None, &Vec::new(), &today, &offset);
    assert_eq!(state.active_view, SmartView::All);
    assert!(!state.show_saved_views);
    let three = vec![SortSpec::default(), SortSpec::default(), SortSpec { field: SortField::Title, direction: SortDirection::Ascending }];
    assert_eq!(effective_sort(&three).len(), 2);
}

#[test]
fn month_grid_agenda_board_and_counters() {
    let offset = UtcOffset::utc();
    let first = date(2026, 8, 1);
    let mut tasks = Vec::new();
    for n in 0..4u128 {
        let mut t = task(n, &format!("t{n}"));
        t.due = Due::Date(date(2026, 8, 3));
        tasks.push(t);
    }
    let undated = task(9, "undated");
    tasks.push(undated);
    let grid = month_grid(&first, &tasks, &date(2026, 8, 3), &offset);
    assert_eq!(grid.len(), 42);
    assert!(grid[5].is_none());
    let first_day = grid[6].as_ref().unwrap();
    assert_eq!(first_day.day, 1);
    let third = grid[8].as_ref().unwrap();
    assert_eq!(third.day, 3);
    assert!(third.is_today);
    assert_eq!(third.total, 4);
    assert_eq!(third.tasks.len(), 3);
    assert!(grid[6 + 31].is_none());
    let (dated, without) = agenda(&tasks, &offset);
    assert_eq!(dated, vec![0, 1, 2, 3]);
    assert_eq!(without, vec![4]);
    tasks[1].status = TaskStatus::Doing;
    assert_eq!(board_column(&tasks, TaskStatus::Doing).len(), 1);
    assert_eq!(board_neighbours(TaskStatus::Todo), (None, Some(TaskStatus::Doing)));
    assert_eq!(board_neighbours(TaskStatus::Done), (Some(TaskStatus::Blocked), None));
    let (today_count, overdue) = sidebar_counts(&tasks, &at(0), &date(2026, 8, 3), &offset);
    assert_eq!(today_count, 4);
    assert_eq!(overdue, 0);
    let (_, overdue_later) = sidebar_counts(&tasks, &at(0), &date(2026, 8, 4), &offset);
    assert_eq!(overdue_later, 4);
    assert_eq!(due_tone(&tasks[0], &at(0), &date(2026, 8, 2), &offset), Tone::Warning);
    assert_eq!(due_tone(&tasks[0], &at(0), &date(2026, 8, 4), &offset), Tone::Danger);
    assert_eq!(due_tone(&tasks[0], &at(0), &date(2026, 7, 1), &offset), Tone::Muted);
    assert_eq!(priority_tone(Priority::High), Tone::Danger);
}

#[test]
fn palette_filters_commands_and_time_menu_inserts_the_selected_time() {
    assert_eq!(listed_commands("").len(), 14);
    assert_eq!(listed_commands("BACKUP"), vec![PaletteCommand::Backup]);
    assert_eq!(listed_commands(" today "), vec![PaletteCommand::Today]);
    assert!(listed_commands("zzz").is_empty());
    assert_eq!(palette_action(PaletteCommand::PriorityNone), PaletteAction::SetSelectedPriority(Priority::Unset));
    assert_eq!(palette_action(PaletteCommand::Today), PaletteAction::ShowView(SmartView::Today));
    assert_eq!(time_choices(None).len(), 96);
    assert_eq!(time_choices(Some("14:30")).len(), 96);
    let with = time_choices(Some("14:37"));
    assert_eq!(with.len(), 97);
    assert_eq!(with[58], "14:30");
    assert_eq!(with[59], "14:37");
    assert_eq!(with[60], "14:45");
}

#[test]
fn backup_names_rotation_and_listing() {
    assert_eq!(daily_backup_name(&date(2026, 8, 28)), "hodoq-2026-08-28.sqlite3");
    assert_eq!(stamped_file_name("hodoq-manual-", &at(123), ".sqlite3"), "hodoq-manual-123000.sqlite3");
    assert_eq!(stamped_file_name("hodoq-", &Timestamp::from_unix_nanos(-1_500_000).unwrap(), ".csv"), "hodoq--1.csv");
    assert!(is_sqlite_file("a.sqlite3"));
    assert!(!is_sqlite_file(".sqlite3"));
    let names: Vec<String> = (1..=7)
        .map(|d| format!("hodoq-2026-08-0{d}.sqlite3"))
        .chain(["hodoq-manual-1.sqlite3".to_owned(), "notes.txt".to_owned()])
        .collect();
    assert_eq!(backups_to_prune(&names), ["hodoq-2026-08-01.sqlite3", "hodoq-2026-08-02.sqlite3"]);
    let listed = list_backup_files(&names);
    assert_eq!(listed.len(), 8);
    assert_eq!(listed[0], "hodoq-manual-1.sqlite3");
    assert_eq!(listed[1], "hodoq-2026-08-07.sqlite3");
}

#[test]
fn closing_saves_first_and_holds_on_failure() {
    let mut state = CloseState::new();
    assert_eq!(state.request(), CloseStep::SaveFirst);
    let message = state.saved(Err("disk full".to_owned())).unwrap();
    assert_eq!(message, "終了前の保存に失敗しました: disk full");
    assert_eq!(state.on_drop(), DropStep::SaveEverything);
    assert!(state.saved(Ok(())).is_none());
    assert_eq!(state.request(), CloseStep::Close);
    assert_eq!(state.on_drop(), DropStep::Nothing);
    let mut other = CloseState::new();
    other.discard();
    assert_eq!(other.request(), CloseStep::Close);
    assert_eq!(other.on_drop(), DropStep::FlushAndSaveSettings);
    let prefs = view_preferences(ViewKind::Board, SmartView::Done, &vec![SortSpec::default()], None);
    assert_eq!(prefs.active_view, "done");
    assert_eq!(settings_failure_message("x"), "表示設定の保存に失敗しました: x");
}

#[test]
fn list_rows_insert_a_heading_where_the_group_changes() {
    let offset = UtcOffset::utc();
    let mut a = task(1, "a");
    a.status = TaskStatus::Doing;
    let b = task(2, "b");
    let c = task(3, "c");
    let rows = vec![a, b, c];
    let items = list_items(&rows, Some(GroupBy::Status), &Vec::new(), &offset);
    assert_eq!(
        items,
        vec![
            ListItem::Group("進行中".to_owned()),
            ListItem::Task(0),
            ListItem::Group("未着手".to_owned()),
            ListItem::Task(1),
            ListItem::Task(2),
        ]
    );
    assert_eq!(list_items(&rows, None, &Vec::new(), &offset), vec![ListItem::Task(0), ListItem::Task(1), ListItem::Task(2)]);
    let manual = [SortSpec::default()];
    let mut x = task(4, "x");
    x.sort_order = 1;
    let y = task(5, "y");
    let shown = vec![x, y];
    assert!(drag_swap_allowed(ViewKind::List, &shown, TaskId { value: 4 }, TaskId { value: 5 }, &manual, None, &Vec::new(), &offset));
    assert!(!drag_swap_allowed(ViewKind::List, &shown, TaskId { value: 4 }, TaskId { value: 9 }, &manual, None, &Vec::new(), &offset));
    assert!(drag_swap_allowed(ViewKind::Board, &shown, TaskId { value: 4 }, TaskId { value: 9 }, &manual, None, &Vec::new(), &offset));
}

#[test]
fn the_undated_scope_keeps_only_tasks_without_a_due() {
    let now = at(86_400 * 20_000);
    let offset = UtcOffset::utc();
    let undated = task(1, "undated");
    let mut dated = task(2, "dated");
    dated.due = Due::Date(date_at(&now, &offset));
    let mut filter = TaskFilter::empty();
    filter.due_scope = DueScope::Undated;
    let query = TaskQuery::new(&filter, now, offset);
    assert!(query.matches(&undated));
    assert!(!query.matches(&dated));
}

#[test]
fn the_overdue_scope_leaves_out_completed_tasks() {
    let now = at(86_400 * 20_000);
    let offset = UtcOffset::utc();
    let yesterday = date_at(&at(86_400 * 19_999), &offset);
    let mut open = task(1, "open");
    open.due = Due::Date(yesterday);
    let mut done = task(2, "done");
    done.due = Due::Date(yesterday);
    done.set_status(TaskStatus::Done, now);
    let mut filter = TaskFilter::empty();
    filter.due_scope = DueScope::Overdue;
    let query = TaskQuery::new(&filter, now, offset);
    assert!(query.matches(&open));
    assert!(!query.matches(&done));
}

#[test]
fn a_failed_save_reports_read_only_or_failure() {
    assert_eq!(save_failure_status(true), "読み取り専用");
    assert_eq!(save_failure_status(false), "保存失敗");
}

#[test]
fn a_failed_database_retry_names_the_reason() {
    assert_eq!(retry_failure_message("locked"), "DBの再試行に失敗しました: locked");
}

#[test]
fn fresh_identifiers_are_version_four_uuids() {
    let values = [TaskId::new().value, ProjectId::new().value, TagId::new().value, SavedViewId::new().value];
    for v in values {
        assert_eq!((v >> 76) & 0xf, 4);
        assert_eq!((v >> 62) & 0x3, 2);
    }
    assert_ne!(TaskId::new(), TaskId::new());
}

#[test]
fn restart_keeps_the_last_layout_of_a_reopened_saved_view() {
    let today = date(2026, 8, 28);
    let offset = UtcOffset::utc();
    let mut live = LiveFilter::cleared();
    live.due = DueScope::Overdue;
    let sort = vec![SortSpec { field: SortField::Title, direction: SortDirection::Ascending }];
    let view = new_saved_view("重要", ViewKind::Board, &live, None, "q", &sort, Some(GroupBy::Status), &Vec::new(), at(1), &offset).unwrap();
    let setting = format!("saved:{}", view.id.text());
    let saved = vec![view];
    let state = opening_state(false, &Vec::new(), &setting, ViewKind::List, &Vec::new(), None, &saved, &today, &offset);
    assert_eq!(state.active_view, SmartView::Saved(saved[0].id));
    assert_eq!(state.panel.view_kind, ViewKind::List);
    assert_eq!(state.panel.live.due, DueScope::Overdue);
    assert_eq!(state.panel.group_by, Some(GroupBy::Status));
    assert_eq!(state.panel.query, "q");
    assert_eq!(state.view_name, "重要");
    assert_eq!(panel_of_saved_view(&saved[0], &offset).view_kind, ViewKind::Board);
}

#[test]
fn the_daily_backup_is_due_only_when_missing() {
    let today = date(2026, 8, 28);
    let names = vec!["hodoq-2026-08-27.sqlite3".to_string(), "notes.txt".to_string()];
    assert_eq!(daily_backup_due(&names, &today), Some("hodoq-2026-08-28.sqlite3".to_string()));
    let names = vec!["hodoq-2026-08-28.sqlite3".to_string()];
    assert_eq!(daily_backup_due(&names, &today), None);
}

#[test]
fn date_times_at_the_ends_of_the_year_range_are_accepted() {
    for seconds in [0, 9 * 3600, -93_599, 93_599] {
        let offset = UtcOffset::from_whole_seconds(seconds).unwrap();
        for text in ["9999-12-31 12:00", "9999-12-31 23:59", "-9999-01-01 00:00"] {
            let due = parse_due_at(text, &offset).unwrap();
            assert!(matches!(due, Due::DateTime(_)), "{text}");
            assert_eq!(format_due_input_at(&due, &offset), text);
        }
    }
    let last = instant_at(&date(9999, 12, 31), 23, 59, &UtcOffset::from_whole_seconds(-93_599).unwrap()).unwrap();
    assert_eq!(date_at(&last, &UtcOffset::utc()), date(9999, 12, 31));
    assert_eq!(clock_at(&last, &UtcOffset::utc()), (1, 58));
}

#[test]
fn a_failed_save_of_pending_edits_keeps_the_open_task() {
    let mut state = SelectionState::new();
    assert!(state.select(TaskId { value: 1 }, true));
    assert_eq!(state.selected_task, Some(TaskId { value: 1 }));
    assert!(!state.select(TaskId { value: 2 }, false));
    assert_eq!(state.selected_task, Some(TaskId { value: 1 }));
    assert_eq!(state.anchor, Some(TaskId { value: 1 }));
    assert!(!state.select(TaskId { value: 1 }, false));
    assert!(state.select(TaskId { value: 2 }, true));
    assert_eq!(state.anchor, Some(TaskId { value: 2 }));
}

#[test]
fn the_local_offset_falls_back_to_utc_when_unknown() {
    assert_eq!(UtcOffset::from_local_lookup(None), UtcOffset::utc());
    assert_eq!(UtcOffset::from_local_lookup(Some(32_400)).seconds, 32_400);
}

#[test]
fn the_status_line_follows_storage_after_each_refresh() {
    let (status, error) = refreshed_status("保存中…".to_string(), None, None);
    assert_eq!(status, "保存済み");
    assert_eq!(error, None);
    let (status, error) = refreshed_status("保存中…".to_string(), None, Some("disk full".to_string()));
    assert_eq!(status, "保存失敗");
    assert_eq!(error, Some("disk full".to_string()));
    let (status, error) = refreshed_status("タスクを復元しました".to_string(), Some("old".to_string()), None);
    assert_eq!(status, "タスクを復元しました");
    assert_eq!(error, Some("old".to_string()));
}

#[test]
fn a_settings_save_clears_only_its_own_error() {
    let failed = error_after_settings_save(None, Err("denied".to_string()));
    assert_eq!(failed, Some("表示設定の保存に失敗しました: denied".to_string()));
    assert_eq!(error_after_settings_save(failed, Ok(())), None);
    let other = Some("納期の入力形式を確認してください".to_string());
    assert_eq!(error_after_settings_save(other.clone(), Ok(())), other);
}

#[test]
fn correcting_the_due_input_clears_only_its_own_error() {
    let offset = UtcOffset::utc();
    let message = parse_due_at("2026-02-30", &offset).unwrap_err();
    let (due_error, error) = errors_after_due_typing(Some(message.clone()), Some(message.clone()), parse_due_at("2026-02-28", &offset));
    assert_eq!(due_error, None);
    assert_eq!(error, None);
    let other = Some("保存先への書き込みに失敗しました".to_string());
    let (due_error, error) = errors_after_due_typing(Some(message.clone()), other.clone(), parse_due_at("2026-02-28", &offset));
    assert_eq!(due_error, None);
    assert_eq!(error, other);
    let (due_error, error) = errors_after_due_typing(None, None, parse_due_at("2026-02-30", &offset));
    assert_eq!(due_error, None);
    assert_eq!(error, None);
}

#[test]
fn trashing_waits_until_an_invalid_pending_title_is_corrected() {
    let a = TaskId { value: 1 };
    let mut tasks = vec![task(1, "before")];
    let mut open = Some(a);
    let mut title = Some((a, String::new()));
    let mut memo = None;
    assert!(trash_after_pending_edits(&mut tasks, &mut open, &mut title, &mut memo, a, at(60)).is_err());
    assert_eq!(open, Some(a));
    assert!(tasks[0].deleted_at.is_none());
    assert_eq!(title, Some((a, String::new())));
    title = Some((a, "corrected".to_string()));
    let change = trash_after_pending_edits(&mut tasks, &mut open, &mut title, &mut memo, a, at(60)).unwrap();
    assert!(change.is_some());
    assert_eq!(open, None);
    assert_eq!(title, None);
    assert_eq!(tasks[0].title, "corrected");
    assert!(tasks[0].deleted_at.is_some());
}

#[test]
fn trimming_agrees_with_std_on_every_character() {
    for code in 0..=0x10ffffu32 {
        if let Some(c) = char::from_u32(code) {
            let text = format!("{c}x{c}");
            assert_eq!(trim(&text), text.trim(), "{code:x}");
        }
    }
}
