use vstd::prelude::*;
use crate::model::task_status::{TaskStatus, status_from_code};

verus! {

/// A task on the board (a row of the `tasks` table).
///
/// `due_at` is the due date as a day number: days since the start of the
/// common era, with 0001-01-01 being day 1 (the proleptic Gregorian
/// calendar), so earlier dates have smaller numbers.
#[derive(Debug, Clone)]
pub struct Task {
    pub id: i64,
    pub title: String,
    pub description: String,
    pub status: TaskStatus,
    pub priority: i32,
    pub sort_key: String,
    pub due_at: Option<i32>,
    pub reminder_at: Option<String>,
    pub parent_task_id: Option<i64>,
    pub project_id: Option<i64>,
    pub assignee: Option<String>,
    pub completed_at: Option<String>,
    pub created_by: Option<i64>,
    pub created_at: String,
    pub updated_by: Option<i64>,
    pub updated_at: String,
    pub deleted_by: Option<i64>,
    pub deleted_at: Option<String>,
    pub archived_by: Option<i64>,
    pub archived_at: Option<String>,
}

/// A `tasks` row as the database hands it over: the status as its stored
/// integer and the due date as its stored text.
#[derive(Debug, Clone)]
pub struct TaskRow {
    pub id: i64,
    pub title: String,
    pub description: String,
    pub status: i32,
    pub priority: i32,
    pub sort_key: String,
    pub due_at: Option<String>,
    pub reminder_at: Option<String>,
    pub parent_task_id: Option<i64>,
    pub project_id: Option<i64>,
    pub assignee: Option<String>,
    pub completed_at: Option<String>,
    pub created_by: Option<i64>,
    pub created_at: String,
    pub updated_by: Option<i64>,
    pub updated_at: String,
    pub deleted_by: Option<i64>,
    pub deleted_at: Option<String>,
    pub archived_by: Option<i64>,
    pub archived_at: Option<String>,
}

/// The day number that `chrono::NaiveDate::parse_from_str(s, fmt)` yields
/// (via `num_days_from_ce`), or `None` when the text does not parse.
pub uninterp spec fn parsed_day_number(s: Seq<char>, fmt: Seq<char>) -> Option<int>;

/// Calls `chrono::NaiveDate::parse_from_str` and converts the date to its
/// day number. The contract only ties the result to `parsed_day_number`;
/// chrono's parsing rules are not restated.
#[verifier::external_body]
fn parse_day_number(s: &str, fmt: &str) -> (r: Option<i32>)
    ensures
        r matches Some(d) ==> parsed_day_number(s@, fmt@) == Some(d as int),
        r is None ==> parsed_day_number(s@, fmt@) is None,
{
    match chrono::NaiveDate::parse_from_str(s, fmt) {
        Ok(date) => Some(chrono::Datelike::num_days_from_ce(&date)),
        Err(_) => None,
    }
}

/// The stored date format of `due_at`.
pub open spec fn due_date_format() -> Seq<char> {
    seq!['%', 'Y', '-', '%', 'm', '-', '%', 'd']
}

/// The status a stored code denotes; unknown codes read as `Todo`.
pub open spec fn status_or_todo(v: int) -> TaskStatus {
    match status_from_code(v) {
        Some(s) => s,
        None => TaskStatus::Todo,
    }
}

/// The due day of a stored due-date text: unparsable text reads as no due date.
pub open spec fn stored_due_day(due: Option<String>) -> Option<int> {
    match due {
        Some(s) => parsed_day_number(s@, due_date_format()),
        None => None,
    }
}

impl Task {
    /// Builds a task from a stored row.
    pub fn from_row(row: TaskRow) -> (t: Task)
        ensures
            t.id == row.id,
            t.title == row.title,
            t.description == row.description,
            t.status == status_or_todo(row.status as int),
            t.priority == row.priority,
            t.sort_key == row.sort_key,
            match t.due_at {
                Some(d) => stored_due_day(row.due_at) == Some(d as int),
                None => stored_due_day(row.due_at) is None,
            },
            t.reminder_at == row.reminder_at,
            t.parent_task_id == row.parent_task_id,
            t.project_id == row.project_id,
            t.assignee == row.assignee,
            t.completed_at == row.completed_at,
            t.created_by == row.created_by,
            t.created_at == row.created_at,
            t.updated_by == row.updated_by,
            t.updated_at == row.updated_at,
            t.deleted_by == row.deleted_by,
            t.deleted_at == row.deleted_at,
            t.archived_by == row.archived_by,
            t.archived_at == row.archived_at,
    {
        let status = match TaskStatus::from_i32(row.status) {
            Some(s) => s,
            None => TaskStatus::Todo,
        };
        let due_at = match &row.due_at {
            Some(s) => {
                let fmt = "%Y-%m-%d";
                proof {
                    reveal_strlit("%Y-%m-%d");
                }
                assert(fmt@ == due_date_format());
                parse_day_number(s.as_str(), fmt)
            },
            None => None,
        };
        Task {
            id: row.id,
            title: row.title,
            description: row.description,
            status,
            priority: row.priority,
            sort_key: row.sort_key,
            due_at,
            reminder_at: row.reminder_at,
            parent_task_id: row.parent_task_id,
            project_id: row.project_id,
            assignee: row.assignee,
            completed_at: row.completed_at,
            created_by: row.created_by,
            created_at: row.created_at,
            updated_by: row.updated_by,
            updated_at: row.updated_at,
            deleted_by: row.deleted_by,
            deleted_at: row.deleted_at,
            archived_by: row.archived_by,
            archived_at: row.archived_at,
        }
    }
}

} // verus!
