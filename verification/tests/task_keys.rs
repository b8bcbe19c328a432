use fractional_index::FractionalIndex;
use kanban::db::task::{
    new_sort_key_between, next_sort_key, renumber_keys, sort_key_needs_rebalance,
    sort_key_split_underflows, sort_neighbors,
};
use kanban::model::{Task, TaskStatus};

// ---- new_sort_key_between ----

#[test]
fn new_key_empty_column() {
    let key = new_sort_key_between(None, None).unwrap();
    assert!(!key.is_empty());
    // Default key for empty column
    assert_eq!(key, FractionalIndex::default().to_string());
}

#[test]
fn new_key_after_last() {
    let first = FractionalIndex::default().to_string();
    let key = new_sort_key_between(Some(&first), None).unwrap();
    let fi = FractionalIndex::from_string(&key).unwrap();
    let fi_first = FractionalIndex::from_string(&first).unwrap();
    assert!(fi > fi_first);
}

#[test]
fn new_key_before_first() {
    let first = FractionalIndex::default().to_string();
    let key = new_sort_key_between(None, Some(&first)).unwrap();
    let fi = FractionalIndex::from_string(&key).unwrap();
    let fi_first = FractionalIndex::from_string(&first).unwrap();
    assert!(fi < fi_first);
}

#[test]
fn new_key_between() {
    let first = FractionalIndex::default(); // "80"
    let second = FractionalIndex::new_after(&first); // after first
    let mid =
        new_sort_key_between(Some(&first.to_string()), Some(&second.to_string())).unwrap();
    let fi_mid = FractionalIndex::from_string(&mid).unwrap();
    assert!(fi_mid > first);
    assert!(fi_mid < second);
}

#[test]
fn new_key_exact_values() {
    assert_eq!(new_sort_key_between(None, None).unwrap(), "80");
    assert_eq!(new_sort_key_between(Some("80"), None).unwrap(), "8180");
    assert_eq!(new_sort_key_between(None, Some("80")).unwrap(), "7f80");
    assert_eq!(new_sort_key_between(Some("80"), Some("8180")).unwrap(), "817f80");
}

#[test]
fn new_key_out_of_order_bounds_give_none() {
    assert_eq!(new_sort_key_between(Some("8180"), Some("80")), None);
    assert_eq!(new_sort_key_between(Some("80"), Some("80")), None);
}

#[test]
fn new_key_none_when_a_bound_does_not_parse() {
    // "zz" and non-ASCII text are not keys.
    assert_eq!(new_sort_key_between(Some("zz"), None), None);
    assert_eq!(new_sort_key_between(None, Some("zz")), None);
    assert_eq!(new_sort_key_between(Some("\u{e9}"), Some("8180")), None);
    assert_eq!(new_sort_key_between(Some("80"), Some("")), None);
    // An odd trailing digit is ignored when decoding.
    assert_eq!(new_sort_key_between(Some("80a"), None).unwrap(), "8180");
}

#[test]
fn new_key_one_bound_follows_byte_walk() {
    // Lower bound only: the key after it, also after the stored string.
    let key = new_sort_key_between(Some("80a"), None).unwrap();
    assert_eq!(key, "8180");
    assert!("80a" < key.as_str());
    assert_eq!(new_sort_key_between(Some("ff80"), None).unwrap(), "ff8180");
    // Upper bound only: the key before it.
    assert_eq!(new_sort_key_between(None, Some("8180")).unwrap(), "80");
    assert_eq!(new_sort_key_between(None, Some("0080")).unwrap(), "007f80");
    assert_eq!(new_sort_key_between(None, Some("0580")).unwrap(), "0480");
}

#[test]
fn new_key_lies_strictly_between_as_strings() {
    let lo = "80";
    let hi = "8180";
    let mid = new_sort_key_between(Some(lo), Some(hi)).unwrap();
    assert!(lo < mid.as_str() && mid.as_str() < hi);
}

// ---- sort_key_needs_rebalance ----

#[test]
fn no_rebalance_for_normal_keys() {
    assert!(!sort_key_needs_rebalance(Some("80"), Some("8180")));
}

#[test]
fn no_rebalance_when_both_none() {
    assert!(!sort_key_needs_rebalance(None, None));
}

#[test]
fn rebalance_when_prev_too_long() {
    let long_key = "8".repeat(100);
    assert!(sort_key_needs_rebalance(Some(&long_key), None));
}

#[test]
fn rebalance_when_next_too_long() {
    let long_key = "8".repeat(100);
    assert!(sort_key_needs_rebalance(None, Some(&long_key)));
}

#[test]
fn no_rebalance_just_below_threshold() {
    let key = "8".repeat(99);
    assert!(!sort_key_needs_rebalance(Some(&key), None));
}

#[test]
fn rebalance_counts_bytes() {
    // 50 two-byte characters are 100 bytes.
    let key = "é".repeat(50);
    assert!(sort_key_needs_rebalance(Some(&key), None));
}

// ---- sort_neighbors ----

fn make_task(id: i64, sort_key: String) -> Task {
    Task {
        id,
        title: format!("task-{id}"),
        description: String::new(),
        status: TaskStatus::Todo,
        priority: 0,
        sort_key,
        due_at: None,
        reminder_at: None,
        parent_task_id: None,
        project_id: None,
        assignee: None,
        completed_at: None,
        created_by: None,
        created_at: String::new(),
        updated_by: None,
        updated_at: String::new(),
        deleted_by: None,
        deleted_at: None,
        archived_by: None,
        archived_at: None,
    }
}

fn abc() -> Vec<Task> {
    vec![
        make_task(1, "a".into()),
        make_task(2, "b".into()),
        make_task(3, "c".into()),
    ]
}

#[test]
fn sort_neighbors_cross_column_insert_at_start() {
    let tasks = abc();
    let (prev, next) = sort_neighbors(&tasks, false, 0, 0);
    assert_eq!(prev, None);
    assert_eq!(next, Some("a".into()));
}

#[test]
fn sort_neighbors_cross_column_insert_at_end() {
    let tasks = abc();
    let (prev, next) = sort_neighbors(&tasks, false, 0, 3);
    assert_eq!(prev, Some("c".into()));
    assert_eq!(next, None);
}

#[test]
fn sort_neighbors_cross_column_insert_between() {
    let tasks = abc();
    let (prev, next) = sort_neighbors(&tasks, false, 0, 1);
    assert_eq!(prev, Some("a".into()));
    assert_eq!(next, Some("b".into()));
}

#[test]
fn sort_neighbors_same_column_excludes_source() {
    let tasks = abc();
    let (prev, next) = sort_neighbors(&tasks, true, 1, 2);
    assert_eq!(prev, Some("c".into())); // C
    assert_eq!(next, None); // end of list
}

#[test]
fn sort_neighbors_same_column_excludes_source_insert_between() {
    let tasks = abc();
    let (prev, next) = sort_neighbors(&tasks, true, 2, 0);
    assert_eq!(prev, None);
    assert_eq!(next, Some("a".into()));
}

#[test]
fn sort_neighbors_same_column_move_down_one() {
    let tasks = abc();
    let (prev, next) = sort_neighbors(&tasks, true, 0, 0);
    assert_eq!(prev, None);
    assert_eq!(next, Some("b".into()));
}

#[test]
fn sort_neighbors_out_of_range_indices() {
    let tasks = abc();
    assert_eq!(sort_neighbors(&tasks, false, 0, 7), (None, None));
    assert_eq!(sort_neighbors(&tasks, false, 0, -3), (None, None));
    assert_eq!(sort_neighbors(&tasks, true, -1, 1), (Some("a".into()), Some("b".into())));
}

#[test]
fn sort_neighbors_filtered_matches_removed_list() {
    let tasks = abc();
    let mut removed = abc();
    removed.remove(1);
    for i in 0..3 {
        assert_eq!(sort_neighbors(&tasks, true, 1, i), sort_neighbors(&removed, false, 0, i));
    }
}

// ---- renumbering and new-task keys ----

#[test]
fn renumber_keys_in_order() {
    let keys = renumber_keys(&[42, 7, 9]);
    assert_eq!(
        keys,
        vec![(42, "80".to_string()), (7, "8180".to_string()), (9, "8280".to_string())]
    );
    assert!(keys[0].1 < keys[1].1 && keys[1].1 < keys[2].1);
    assert!(renumber_keys(&[]).is_empty());
}

#[test]
fn renumber_keys_strictly_increase_over_a_long_column() {
    let ids: Vec<i64> = (0..300).collect();
    let keys = renumber_keys(&ids);
    for w in keys.windows(2) {
        assert!(w[0].1 < w[1].1);
    }
}

#[test]
fn next_sort_key_cases() {
    assert_eq!(next_sort_key(None), "80");
    assert_eq!(next_sort_key(Some("80")), "8180");
    assert!(next_sort_key(Some("8180")).as_str() > "8180");
    // A last key that does not decode counts as the default key.
    assert_eq!(next_sort_key(Some("not-a-key")), "8180");
}

#[test]
fn next_sort_key_follows_byte_walk() {
    // A byte below 0x80 is cut; 0xff is passed over; another byte is raised.
    assert_eq!(next_sort_key(Some("7f80")), "80");
    assert_eq!(next_sort_key(Some("ff80")), "ff8180");
    assert_eq!(next_sort_key(Some("8a3c80")), "8b80");
}

#[test]
fn next_sort_key_after_raw_last_key() {
    // A trailing odd digit is ignored when decoding, and the new key still
    // sorts after the stored string.
    let key = next_sort_key(Some("80a"));
    assert_eq!(key, "8180");
    assert!("80a" < key.as_str());
}

#[test]
fn split_underflow_detection() {
    // A zero byte in the shared prefix of the upper bound.
    assert!(sort_key_split_underflows(Some("000580"), Some("000780")));
    assert!(sort_key_split_underflows(Some("0080"), Some("000080")));
    // Only one bound, or bounds that do not decode: fine.
    assert!(!sort_key_split_underflows(Some("80"), Some("8180")));
    // The first byte of the upper bound is always examined.
    assert!(sort_key_split_underflows(Some("0180"), Some("0080")));
    assert!(!sort_key_split_underflows(None, Some("000080")));
    assert!(!sort_key_split_underflows(Some("zz"), Some("000080")));
    // Zero bytes in the upper bound after the point where the keys differ are fine.
    assert!(!sort_key_split_underflows(Some("0280"), Some("030080")));
    assert_eq!(new_sort_key_between(Some("0280"), Some("030080")).unwrap(), "028180");
}
