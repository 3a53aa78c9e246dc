use hodoq::backups::is_automatic_backup;
use hodoq::calendar::{calendar_leading_days, CivilDate, Timestamp};
use hodoq::due::{due_input_with_time, due_time_options, parse_due, picker_due_input_value};
use hodoq::editing::apply_pending_edits;
use hodoq::listing::check_ten_thousand_task_visible_search;
use hodoq::sorting::prioritize_list_tasks;
use hodoq::task::{same_task, Due, Priority, Task};

fn run_ten_thousand_task_search() {
    let (tasks, matches) = check_ten_thousand_task_visible_search();
    assert_eq!(tasks.len(), 10_000);
    assert_eq!(matches.len(), 1);
    assert_eq!(matches[0].id, tasks[9999].id);
}

#[test]
fn tests_ten_thousand_task_visible_search_finds_matching_task() {
    run_ten_thousand_task_search();
}

#[test]
fn workspace_ten_thousand_task_visible_search_finds_matching_task() {
    run_ten_thousand_task_search();
}

fn check_due_input_supports_none_date_and_datetime() {
    assert_eq!(parse_due("未定").unwrap(), Due::Unset);
    assert!(matches!(parse_due("2026-08-28").unwrap(), Due::Date(_)));
    assert!(matches!(parse_due("2026-08-28 14:30").unwrap(), Due::DateTime(_)));
}

#[test]
fn workspace_due_input_supports_none_date_and_datetime() {
    check_due_input_supports_none_date_and_datetime();
}

#[test]
fn tests_due_input_supports_none_date_and_datetime() {
    check_due_input_supports_none_date_and_datetime();
}

fn check_date_picker_selection_updates_due_input() {
    let selected = CivilDate::new(2026, 8, 30).unwrap();
    assert_eq!(picker_due_input_value(Some(selected), ""), "2026-08-30");
    assert_eq!(
        picker_due_input_value(Some(selected), "2026-08-20 14:30"),
        "2026-08-30 14:30"
    );
    assert_eq!(picker_due_input_value(None, "2026-08-20 14:30"), "");
}

#[test]
fn workspace_date_picker_selection_updates_due_input() {
    check_date_picker_selection_updates_due_input();
}

#[test]
fn tests_date_picker_selection_updates_due_input() {
    check_date_picker_selection_updates_due_input();
}

fn check_time_selection_updates_the_unified_due_input() {
    assert_eq!(
        due_input_with_time("2026-08-30", Some("14:30")).unwrap(),
        "2026-08-30 14:30"
    );
    assert_eq!(due_input_with_time("2026-08-30 14:30", None).unwrap(), "2026-08-30");
    assert!(due_input_with_time("", Some("14:30")).is_err());
    assert_eq!(due_time_options().len(), 96);
}

#[test]
fn workspace_time_selection_updates_the_unified_due_input() {
    check_time_selection_updates_the_unified_due_input();
}

#[test]
fn tests_time_selection_updates_the_unified_due_input() {
    check_time_selection_updates_the_unified_due_input();
}

fn check_calendar_month_starts_on_sunday() {
    let sunday = CivilDate::new(2026, 11, 1).unwrap();
    let saturday = CivilDate::new(2026, 8, 1).unwrap();
    assert_eq!(calendar_leading_days(&sunday), 0);
    assert_eq!(calendar_leading_days(&saturday), 6);
}

#[test]
fn workspace_calendar_month_starts_on_sunday() {
    check_calendar_month_starts_on_sunday();
}

#[test]
fn tests_calendar_month_starts_on_sunday() {
    check_calendar_month_starts_on_sunday();
}

#[test]
fn automatic_retention_does_not_match_manual_backups() {
    assert!(is_automatic_backup("hodoq-2026-08-28.sqlite3"));
    assert!(!is_automatic_backup("hodoq-manual-123.sqlite3"));
    assert!(!is_automatic_backup("hodoq-before-restore-123.sqlite3"));
}

fn check_pending_edits_are_validated_and_applied_before_close() {
    let now = Timestamp::unix_epoch();
    let task = Task::new("before", now).unwrap();
    let id = task.id;
    let mut tasks = vec![task];
    let changed = apply_pending_edits(
        &mut tasks,
        Some(&(id, "after".to_owned())),
        Some(&(id, "memo".to_owned())),
        now.plus_seconds(1).unwrap(),
    )
    .unwrap();
    assert!(changed);
    assert_eq!(tasks[0].title, "after");
    assert_eq!(tasks[0].memo, "memo");

    let snapshot: Vec<Task> = tasks.iter().map(|task| task.copy()).collect();
    assert!(apply_pending_edits(
        &mut tasks,
        Some(&(id, "   ".to_owned())),
        None,
        now.plus_seconds(2).unwrap(),
    )
    .is_err());
    assert_eq!(tasks.len(), snapshot.len());
    assert!(tasks
        .iter()
        .zip(snapshot.iter())
        .all(|(left, right)| same_task(left, right)));
}

#[test]
fn workspace_pending_edits_are_validated_and_applied_before_close() {
    check_pending_edits_are_validated_and_applied_before_close();
}

#[test]
fn tests_pending_edits_are_validated_and_applied_before_close() {
    check_pending_edits_are_validated_and_applied_before_close();
}

#[test]
fn task_editor_pending_edits_are_validated_and_applied_before_close() {
    check_pending_edits_are_validated_and_applied_before_close();
}

fn task(title: &str, priority: Priority, now: Timestamp) -> Task {
    let mut task = Task::new(title, now).unwrap();
    task.priority = priority;
    task
}

#[test]
fn list_moves_high_priority_first_and_preserves_the_other_order() {
    let now = Timestamp::now();
    let mut tasks = vec![
        task("low-first", Priority::Low, now),
        task("high-first", Priority::High, now),
        task("medium", Priority::Medium, now),
        task("low-second", Priority::Low, now),
        task("high-second", Priority::High, now),
        task("none", Priority::Unset, now),
    ];

    prioritize_list_tasks(&mut tasks);

    assert_eq!(
        tasks.into_iter().map(|task| task.title).collect::<Vec<_>>(),
        [
            "high-first",
            "high-second",
            "low-first",
            "medium",
            "low-second",
            "none"
        ]
    );
}
