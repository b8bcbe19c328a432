use vstd::prelude::*;

verus! {

/// Mirrors the `status` column in SQLite (stored as 0, 1, 2, 3).
#[derive(Debug, Clone, Copy, PartialEq, Eq, Structural)]
pub enum TaskStatus {
    Todo,
    InProgress,
    Done,
    Archived,
}

/// The integer stored in the database for each status.
pub open spec fn status_code(s: TaskStatus) -> int {
    match s {
        TaskStatus::Todo => 0,
        TaskStatus::InProgress => 1,
        TaskStatus::Done => 2,
        TaskStatus::Archived => 3,
    }
}

/// The status stored as `v`, if `v` is one of the four codes.
pub open spec fn status_from_code(v: int) -> Option<TaskStatus> {
    if v == 0 {
        Some(TaskStatus::Todo)
    } else if v == 1 {
        Some(TaskStatus::InProgress)
    } else if v == 2 {
        Some(TaskStatus::Done)
    } else if v == 3 {
        Some(TaskStatus::Archived)
    } else {
        None
    }
}

impl TaskStatus {
    pub fn from_i32(v: i32) -> (r: Option<Self>)
        ensures
            r == status_from_code(v as int),
            r is Some <==> 0 <= v <= 3,
    {
        match v {
            0 => Some(Self::Todo),
            1 => Some(Self::InProgress),
            2 => Some(Self::Done),
            3 => Some(Self::Archived),
            _ => None,
        }
    }

    /// The integer stored in the database for this status.
    pub fn to_i32(self) -> (r: i32)
        ensures
            r as int == status_code(self),
    {
        match self {
            Self::Todo => 0,
            Self::InProgress => 1,
            Self::Done => 2,
            Self::Archived => 3,
        }
    }
}

/// Decoding a stored status code gives back the status that was stored.
pub proof fn lemma_status_code_roundtrip(s: TaskStatus)
    ensures
        status_from_code(status_code(s)) == Some(s),
{
}

} // verus!
