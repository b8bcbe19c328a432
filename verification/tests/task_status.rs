use kanban::model::TaskStatus;

#[test]
fn from_i32_valid_values() {
    assert_eq!(TaskStatus::from_i32(0), Some(TaskStatus::Todo));
    assert_eq!(TaskStatus::from_i32(1), Some(TaskStatus::InProgress));
    assert_eq!(TaskStatus::from_i32(2), Some(TaskStatus::Done));
    assert_eq!(TaskStatus::from_i32(3), Some(TaskStatus::Archived));
}

#[test]
fn from_i32_invalid_values() {
    assert_eq!(TaskStatus::from_i32(-1), None);
    assert_eq!(TaskStatus::from_i32(4), None);
    assert_eq!(TaskStatus::from_i32(100), None);
}

#[test]
fn status_code_roundtrip() {
    for s in [
        TaskStatus::Todo,
        TaskStatus::InProgress,
        TaskStatus::Done,
        TaskStatus::Archived,
    ] {
        assert_eq!(TaskStatus::from_i32(s.to_i32()), Some(s));
    }
    assert_eq!(TaskStatus::Done.to_i32(), 2);
}
