use kanban::board::{
    attach_tags, can_reorder_in_column, close_action, close_behavior_to_store, column_sort_config, plan_drop,
    CloseAction, DropMove,
};
use kanban::db::tag::{group_tag_rows, in_list_placeholders};
use kanban::db::task::{completed_at_update, CompletedAtUpdate};
use kanban::model::settings::{
    default_auto_archive_days, default_auto_archive_enabled, default_theme_mode,
    DEFAULT_AUTO_ARCHIVE_DAYS,
};
use kanban::model::task::TaskRow;
use kanban::model::{Settings, SortConfig, SortField, Task, TaskStatus};

#[test]
fn column_sort_config_reads_the_column() {
    let todo = (0, true);
    let doing = (3, false);
    let done = (2, true);
    assert_eq!(
        column_sort_config(TaskStatus::Todo, todo, doing, done),
        SortConfig { field: SortField::Manual, direction: true }
    );
    assert_eq!(
        column_sort_config(TaskStatus::InProgress, todo, doing, done),
        SortConfig { field: SortField::Title, direction: false }
    );
    assert_eq!(
        column_sort_config(TaskStatus::Done, todo, (9, true), (77, false)),
        SortConfig { field: SortField::Priority, direction: false }
    );
    assert_eq!(
        column_sort_config(TaskStatus::Archived, todo, doing, done),
        SortConfig::default()
    );
}

#[test]
fn reorder_only_in_manual_columns() {
    assert!(can_reorder_in_column(SortConfig { field: SortField::Manual, direction: false }));
    assert!(!can_reorder_in_column(SortConfig { field: SortField::DueDate, direction: true }));
}

#[test]
fn plan_drop_cases() {
    // Unknown columns are refused.
    assert_eq!(plan_drop(1, 5, 0, 0, 0, true), None);
    assert_eq!(plan_drop(1, 0, 0, 9, 0, true), None);
    // Dropping onto its own slot, or just below it, is a no-op.
    assert_eq!(plan_drop(1, 0, 2, 0, 2, true), None);
    assert_eq!(plan_drop(1, 0, 2, 0, 3, true), None);
    // Same-column moves need a manual sort.
    assert_eq!(plan_drop(1, 0, 0, 0, 3, false), None);
    assert_eq!(
        plan_drop(7, 0, 0, 0, 3, true),
        Some(DropMove {
            task_id: 7,
            source_status: TaskStatus::Todo,
            target_status: TaskStatus::Todo,
            same_column: true,
            source_index: 0,
            effective_index: 2,
        })
    );
    // Cross-column moves ignore the target's sort mode and index shift.
    assert_eq!(
        plan_drop(8, 0, 1, 2, 4, false),
        Some(DropMove {
            task_id: 8,
            source_status: TaskStatus::Todo,
            target_status: TaskStatus::Done,
            same_column: false,
            source_index: 1,
            effective_index: 4,
        })
    );
}

#[test]
fn close_actions() {
    assert_eq!(close_action("quit"), CloseAction::Quit);
    assert_eq!(close_action("minimize_to_tray"), CloseAction::MinimizeToTray);
    assert_eq!(close_action(""), CloseAction::Ask);
    assert_eq!(close_action("Quit"), CloseAction::Ask);
    assert_eq!(close_behavior_to_store("quit", true), Some("quit".to_string()));
    assert_eq!(close_behavior_to_store("quit", false), None);
    assert_eq!(close_behavior_to_store("", true), None);
}

#[test]
fn completed_at_on_moves() {
    assert_eq!(completed_at_update(TaskStatus::Done), CompletedAtUpdate::KeepOrStampNow);
    assert_eq!(completed_at_update(TaskStatus::Todo), CompletedAtUpdate::Clear);
    assert_eq!(completed_at_update(TaskStatus::InProgress), CompletedAtUpdate::Clear);
    assert_eq!(completed_at_update(TaskStatus::Archived), CompletedAtUpdate::Clear);
}

#[test]
fn group_tag_rows_groups_in_row_order() {
    let rows = vec![
        (1, "bug".to_string()),
        (1, "ui".to_string()),
        (2, "bug".to_string()),
    ];
    let map = group_tag_rows(&rows);
    assert_eq!(map.len(), 2);
    assert_eq!(map.get(&1).unwrap(), &vec!["bug".to_string(), "ui".to_string()]);
    assert_eq!(map.get(&2).unwrap(), &vec!["bug".to_string()]);
    assert!(map.get(&3).is_none());
    assert!(group_tag_rows(&vec![]).is_empty());
}

#[test]
fn placeholders_for_in_lists() {
    assert_eq!(in_list_placeholders(0), "");
    assert_eq!(in_list_placeholders(1), "?");
    assert_eq!(in_list_placeholders(3), "?,?,?");
}

fn row(status: i32, due_at: Option<&str>) -> TaskRow {
    TaskRow {
        id: 5,
        title: "t".into(),
        description: "d".into(),
        status,
        priority: 2,
        sort_key: "80".into(),
        due_at: due_at.map(|s| s.to_string()),
        reminder_at: None,
        parent_task_id: Some(1),
        project_id: None,
        assignee: None,
        completed_at: Some("2026-06-01 10:00:00".into()),
        created_by: None,
        created_at: "c".into(),
        updated_by: None,
        updated_at: "u".into(),
        deleted_by: None,
        deleted_at: None,
        archived_by: None,
        archived_at: None,
    }
}

#[test]
fn task_from_row() {
    let t = Task::from_row(row(2, Some("0001-01-02")));
    assert_eq!(t.status, TaskStatus::Done);
    assert_eq!(t.due_at, Some(2));
    assert_eq!(t.priority, 2);
    assert_eq!(t.parent_task_id, Some(1));
    assert_eq!(t.completed_at.as_deref(), Some("2026-06-01 10:00:00"));
    // Unknown status codes read as Todo; unparsable dates as no due date.
    let t = Task::from_row(row(42, Some("next week")));
    assert_eq!(t.status, TaskStatus::Todo);
    assert_eq!(t.due_at, None);
    let a = Task::from_row(row(0, Some("2026-03-01"))).due_at.unwrap();
    let b = Task::from_row(row(0, Some("2026-02-28"))).due_at.unwrap();
    assert_eq!(a - b, 1);
}

#[test]
fn settings_defaults() {
    let s = Settings::default();
    assert_eq!(s.theme_mode, "system");
    assert!(s.auto_archive_enabled);
    assert_eq!(s.auto_archive_days, 7);
    assert_eq!(default_theme_mode(), "system");
    assert!(default_auto_archive_enabled());
    assert_eq!(default_auto_archive_days(), DEFAULT_AUTO_ARCHIVE_DAYS);
}

#[test]
fn attach_tags_in_column_order() {
    let mut map = std::collections::HashMap::new();
    map.insert(2i64, vec!["ui".to_string(), "bug".to_string()]);
    let tasks = vec![
        Task::from_row(row(0, None)),
        Task { id: 2, ..Task::from_row(row(0, None)) },
    ];
    let cards = attach_tags(tasks, &map);
    assert_eq!(cards.len(), 2);
    assert_eq!(cards[0].0.id, 5);
    assert!(cards[0].1.is_empty());
    assert_eq!(cards[1].0.id, 2);
    assert_eq!(cards[1].1, vec!["ui".to_string(), "bug".to_string()]);
}
