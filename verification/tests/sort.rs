use chrono::Datelike;
use kanban::model::sort::{pinyin_sort_key, sort_tasks, SortConfig, SortField};
use kanban::model::{Task, TaskStatus};

fn make_task(id: i64, title: &str, priority: i32, sort_key: &str) -> Task {
    Task {
        id,
        title: title.into(),
        description: String::new(),
        status: TaskStatus::Todo,
        priority,
        sort_key: sort_key.into(),
        due_at: None,
        reminder_at: None,
        parent_task_id: None,
        project_id: None,
        assignee: None,
        completed_at: None,
        created_by: None,
        created_at: String::new(),
        updated_by: None,
        updated_at: String::new(),
        deleted_by: None,
        deleted_at: None,
        archived_by: None,
        archived_at: None,
    }
}

fn make_task_with_due(id: i64, title: &str, priority: i32, due_days_from_today: i64) -> Task {
    let today = chrono::Local::now().date_naive();
    let due = today + chrono::Duration::days(due_days_from_today);
    Task {
        due_at: Some(due.num_days_from_ce()),
        ..make_task(id, title, priority, "80")
    }
}

fn make_task_no_due(id: i64, title: &str, priority: i32) -> Task {
    Task {
        due_at: None,
        ..make_task(id, title, priority, "80")
    }
}

// ---- SortField ----

#[test]
fn sort_field_from_i32_valid() {
    assert_eq!(SortField::from_i32(0), SortField::Manual);
    assert_eq!(SortField::from_i32(1), SortField::Priority);
    assert_eq!(SortField::from_i32(2), SortField::DueDate);
    assert_eq!(SortField::from_i32(3), SortField::Title);
}

#[test]
fn sort_field_from_i32_invalid_defaults_to_priority() {
    assert_eq!(SortField::from_i32(99), SortField::Priority);
    assert_eq!(SortField::from_i32(-1), SortField::Priority);
}

#[test]
fn sort_field_to_i32_roundtrip() {
    for f in [
        SortField::Manual,
        SortField::Priority,
        SortField::DueDate,
        SortField::Title,
    ] {
        assert_eq!(SortField::from_i32(f.to_i32()), f);
    }
}

#[test]
fn sort_field_to_i32_values() {
    assert_eq!(SortField::Manual.to_i32(), 0);
    assert_eq!(SortField::Priority.to_i32(), 1);
    assert_eq!(SortField::DueDate.to_i32(), 2);
    assert_eq!(SortField::Title.to_i32(), 3);
}

#[test]
fn sort_defaults() {
    assert_eq!(SortField::default(), SortField::Priority);
    let c = SortConfig::default();
    assert_eq!(c.field, SortField::Priority);
    assert!(c.direction);
    assert!(kanban::model::sort::default_direction());
}

// ---- sort_tasks: empty / single ----

#[test]
fn sort_empty_does_not_panic() {
    let mut tasks: Vec<Task> = vec![];
    sort_tasks(&mut tasks, SortConfig::default());
    assert!(tasks.is_empty());
}

#[test]
fn sort_single_unchanged() {
    let mut tasks = vec![make_task(1, "test", 2, "80")];
    sort_tasks(&mut tasks, SortConfig::default());
    assert_eq!(tasks[0].id, 1);
}

// ---- sort_tasks: Manual ----

#[test]
fn manual_asc_preserves_order() {
    let mut tasks = vec![
        make_task(1, "a", 0, "80"),
        make_task(2, "b", 0, "8180"),
        make_task(3, "c", 0, "8280"),
    ];
    sort_tasks(
        &mut tasks,
        SortConfig {
            field: SortField::Manual,
            direction: true,
        },
    );
    assert_eq!(tasks[0].id, 1);
    assert_eq!(tasks[1].id, 2);
    assert_eq!(tasks[2].id, 3);
}

#[test]
fn manual_desc_reverses_order() {
    let mut tasks = vec![
        make_task(1, "a", 0, "80"),
        make_task(2, "b", 0, "8180"),
        make_task(3, "c", 0, "8280"),
    ];
    sort_tasks(
        &mut tasks,
        SortConfig {
            field: SortField::Manual,
            direction: false,
        },
    );
    assert_eq!(tasks[0].id, 3);
    assert_eq!(tasks[1].id, 2);
    assert_eq!(tasks[2].id, 1);
}

#[test]
fn manual_desc_twice_restores_order() {
    let mut tasks = vec![
        make_task(1, "a", 0, "80"),
        make_task(2, "b", 0, "8180"),
        make_task(3, "c", 0, "8280"),
        make_task(4, "d", 0, "8380"),
    ];
    let desc = SortConfig {
        field: SortField::Manual,
        direction: false,
    };
    sort_tasks(&mut tasks, desc);
    sort_tasks(&mut tasks, desc);
    let ids: Vec<i64> = tasks.iter().map(|t| t.id).collect();
    assert_eq!(ids, vec![1, 2, 3, 4]);
}

// ---- sort_tasks: Priority ----

#[test]
fn priority_asc_highest_first() {
    let mut tasks = vec![
        make_task(1, "low", 3, "80"),
        make_task(2, "high", 0, "8180"),
        make_task(3, "mid", 1, "8280"),
    ];
    sort_tasks(
        &mut tasks,
        SortConfig {
            field: SortField::Priority,
            direction: true,
        },
    );
    // P0 before P1 before P3
    assert_eq!(tasks[0].priority, 0);
    assert_eq!(tasks[1].priority, 1);
    assert_eq!(tasks[2].priority, 3);
}

#[test]
fn priority_desc_lowest_first() {
    let mut tasks = vec![
        make_task(1, "low", 3, "80"),
        make_task(2, "high", 0, "8180"),
        make_task(3, "mid", 1, "8280"),
    ];
    sort_tasks(
        &mut tasks,
        SortConfig {
            field: SortField::Priority,
            direction: false,
        },
    );
    assert_eq!(tasks[0].priority, 3);
    assert_eq!(tasks[1].priority, 1);
    assert_eq!(tasks[2].priority, 0);
}

#[test]
fn priority_ties_keep_order_in_both_directions() {
    let make = || {
        vec![
            make_task(1, "a", 2, "80"),
            make_task(2, "b", 1, "8180"),
            make_task(3, "c", 2, "8280"),
            make_task(4, "d", 1, "8380"),
        ]
    };
    let mut asc = make();
    sort_tasks(&mut asc, SortConfig { field: SortField::Priority, direction: true });
    let ids: Vec<i64> = asc.iter().map(|t| t.id).collect();
    assert_eq!(ids, vec![2, 4, 1, 3]);

    let mut desc = make();
    sort_tasks(&mut desc, SortConfig { field: SortField::Priority, direction: false });
    let ids: Vec<i64> = desc.iter().map(|t| t.id).collect();
    assert_eq!(ids, vec![1, 3, 2, 4]);
}

#[test]
fn sorting_twice_is_sorting_once() {
    let mut tasks = vec![
        make_task(1, "b", 2, "80"),
        make_task(2, "a", 1, "8180"),
        make_task(3, "c", 2, "8280"),
        make_task(4, "a", 0, "8380"),
    ];
    let cfg = SortConfig { field: SortField::Title, direction: false };
    sort_tasks(&mut tasks, cfg);
    let once: Vec<i64> = tasks.iter().map(|t| t.id).collect();
    sort_tasks(&mut tasks, cfg);
    let twice: Vec<i64> = tasks.iter().map(|t| t.id).collect();
    assert_eq!(once, vec![3, 1, 2, 4]);
    assert_eq!(once, twice);
}

// ---- sort_tasks: DueDate ----

#[test]
fn due_date_asc_earliest_first_none_last() {
    let mut tasks = vec![
        make_task_no_due(1, "no-due", 0),
        make_task_with_due(2, "later", 0, 5),
        make_task_with_due(3, "sooner", 0, -2),
    ];
    sort_tasks(
        &mut tasks,
        SortConfig {
            field: SortField::DueDate,
            direction: true,
        },
    );
    // Sooner (-2 days) first, then later (+5), then no-due (None) last
    assert_eq!(tasks[0].id, 3); // soonest
    assert_eq!(tasks[1].id, 2); // later
    assert_eq!(tasks[2].id, 1); // no due, always last
}

#[test]
fn due_date_desc_latest_first_none_still_last() {
    let mut tasks = vec![
        make_task_no_due(1, "no-due", 0),
        make_task_with_due(2, "later", 0, 5),
        make_task_with_due(3, "sooner", 0, -2),
    ];
    sort_tasks(
        &mut tasks,
        SortConfig {
            field: SortField::DueDate,
            direction: false,
        },
    );
    // Latest first: later (+5), then sooner (-2), then no-due (None) last
    assert_eq!(tasks[0].id, 2); // latest
    assert_eq!(tasks[1].id, 3); // sooner
    assert_eq!(tasks[2].id, 1); // no due, always last
}

#[test]
fn due_date_all_none_preserves_order() {
    let mut tasks = vec![make_task_no_due(1, "a", 0), make_task_no_due(2, "b", 0)];
    sort_tasks(
        &mut tasks,
        SortConfig {
            field: SortField::DueDate,
            direction: true,
        },
    );
    assert_eq!(tasks[0].id, 1);
    assert_eq!(tasks[1].id, 2);
}

#[test]
fn due_date_undated_after_dated_in_both_directions() {
    for direction in [true, false] {
        let mut tasks = vec![
            make_task_no_due(1, "x", 0),
            make_task_with_due(2, "y", 0, 1),
            make_task_no_due(3, "z", 0),
            make_task_with_due(4, "w", 0, 3),
        ];
        sort_tasks(&mut tasks, SortConfig { field: SortField::DueDate, direction });
        assert!(tasks[0].due_at.is_some());
        assert!(tasks[1].due_at.is_some());
        assert_eq!(tasks[2].id, 1);
        assert_eq!(tasks[3].id, 3);
    }
}

// ---- sort_tasks: Title ----

#[test]
fn title_asc_case_insensitive() {
    let mut tasks = vec![
        make_task(1, "Banana", 0, "80"),
        make_task(2, "apple", 0, "8180"),
        make_task(3, "Cherry", 0, "8280"),
    ];
    sort_tasks(
        &mut tasks,
        SortConfig {
            field: SortField::Title,
            direction: true,
        },
    );
    assert_eq!(tasks[0].title, "apple");
    assert_eq!(tasks[1].title, "Banana");
    assert_eq!(tasks[2].title, "Cherry");
}

#[test]
fn title_desc_case_insensitive() {
    let mut tasks = vec![
        make_task(1, "Banana", 0, "80"),
        make_task(2, "apple", 0, "8180"),
        make_task(3, "Cherry", 0, "8280"),
    ];
    sort_tasks(
        &mut tasks,
        SortConfig {
            field: SortField::Title,
            direction: false,
        },
    );
    assert_eq!(tasks[0].title, "Cherry");
    assert_eq!(tasks[1].title, "Banana");
    assert_eq!(tasks[2].title, "apple");
}

#[test]
fn title_chinese_pinyin_order() {
    // 张 (zhang) < 李 (li) < 王 (wang)
    let mut tasks = vec![
        make_task(1, "王五", 0, "80"),
        make_task(2, "张三", 0, "8180"),
        make_task(3, "李四", 0, "8280"),
    ];
    sort_tasks(
        &mut tasks,
        SortConfig {
            field: SortField::Title,
            direction: true,
        },
    );
    // li < wang < zhang
    assert_eq!(tasks[0].title, "李四");
    assert_eq!(tasks[1].title, "王五");
    assert_eq!(tasks[2].title, "张三");
}

#[test]
fn title_mixed_chinese_and_ascii() {
    let mut tasks = vec![
        make_task(1, "张三", 0, "80"),
        make_task(2, "alice", 0, "8180"),
        make_task(3, "Bob", 0, "8280"),
    ];
    sort_tasks(
        &mut tasks,
        SortConfig {
            field: SortField::Title,
            direction: true,
        },
    );
    // alice < bob < zhangsan
    assert_eq!(tasks[0].title, "alice");
    assert_eq!(tasks[1].title, "Bob");
    assert_eq!(tasks[2].title, "张三");
}

#[test]
fn title_prefix_sorts_first() {
    let mut tasks = vec![
        make_task(1, "abc", 0, "80"),
        make_task(2, "AB", 0, "8180"),
        make_task(3, "ab", 0, "8280"),
    ];
    sort_tasks(&mut tasks, SortConfig { field: SortField::Title, direction: true });
    let ids: Vec<i64> = tasks.iter().map(|t| t.id).collect();
    // "ab" == "ab" (kept in input order) < "abc"
    assert_eq!(ids, vec![2, 3, 1]);
}

// ---- pinyin_sort_key ----

#[test]
fn pinyin_sort_key_ascii_lowercase() {
    let key = pinyin_sort_key("HelloWorld");
    assert_eq!(key, "helloworld");
}

#[test]
fn pinyin_sort_key_chinese() {
    let key = pinyin_sort_key("张三");
    assert_eq!(key, "zhangsan");
}

#[test]
fn pinyin_sort_key_mixed() {
    let key = pinyin_sort_key("Hello张三");
    assert!(key.starts_with("hello"));
    assert!(key.ends_with("zhangsan"));
}

#[test]
fn pinyin_sort_key_empty() {
    let key = pinyin_sort_key("");
    assert!(key.is_empty());
}

#[test]
fn pinyin_sort_key_of_concatenation() {
    let a = pinyin_sort_key("Ab李");
    let b = pinyin_sort_key("王Z9");
    assert_eq!(pinyin_sort_key("Ab李王Z9"), format!("{a}{b}"));
    assert_eq!(pinyin_sort_key("Ab-9 _!"), "ab-9 _!");
}

#[test]
fn pinyin_sort_key_is_ascii() {
    let key = pinyin_sort_key("\u{c9}mile");
    assert_eq!(key, "~mile");
    assert!(key.is_ascii());
    // Plain pinyin spells 绿 with u-umlaut; it becomes '~'.
    let key = pinyin_sort_key("绿");
    assert_eq!(key, "l~");
    assert!(pinyin_sort_key("Zoe") < pinyin_sort_key("\u{c9}mile"));
}
