//! The decisions the board window makes between storage and UI calls:
//! which sort applies to a column, what a drag-and-drop does, and what
//! closing the window does.

use vstd::prelude::*;
use vstd::string::*;
use crate::model::sort::{SortConfig, SortField, sort_field_from_code, sort_field_code};
use crate::model::task_status::{TaskStatus, status_from_code};
use crate::model::task::Task;
use std::collections::HashMap;

verus! {

// ---- Column sort settings ----

/// The sort configuration of the column for `status`, given the
/// `(field, ascending)` settings of the Todo, In-progress and Done columns.
/// The archive has no column setting and uses the default sort.
pub open spec fn column_sort_spec(
    status: TaskStatus,
    todo: (i32, bool),
    in_progress: (i32, bool),
    done: (i32, bool),
) -> SortConfig {
    match status {
        TaskStatus::Todo => SortConfig { field: sort_field_from_code(todo.0 as int), direction: todo.1 },
        TaskStatus::InProgress => SortConfig { field: sort_field_from_code(in_progress.0 as int), direction: in_progress.1 },
        TaskStatus::Done => SortConfig { field: sort_field_from_code(done.0 as int), direction: done.1 },
        TaskStatus::Archived => SortConfig { field: SortField::Priority, direction: true },
    }
}

/// The sort configuration for a column, from the per-column UI settings.
pub fn column_sort_config(
    status: TaskStatus,
    todo: (i32, bool),
    in_progress: (i32, bool),
    done: (i32, bool),
) -> (r: SortConfig)
    ensures
        r == column_sort_spec(status, todo, in_progress, done),
        status == TaskStatus::Todo ==> r.field == sort_field_from_code(todo.0 as int) && r.direction == todo.1,
        status == TaskStatus::InProgress ==> r.field == sort_field_from_code(in_progress.0 as int)
            && r.direction == in_progress.1,
        status == TaskStatus::Done ==> r.field == sort_field_from_code(done.0 as int) && r.direction == done.1,
        status == TaskStatus::Archived ==> r == (SortConfig { field: SortField::Priority, direction: true }),
{
    let (field, ascending) = match status {
        TaskStatus::Todo => todo,
        TaskStatus::InProgress => in_progress,
        TaskStatus::Done => done,
        TaskStatus::Archived => {
            return SortConfig::default();
        },
    };
    SortConfig { field: SortField::from_i32(field), direction: ascending }
}

/// Each column's sort comes from its own setting alone: changing the other
/// columns' settings does not change it, and storing field `f` with direction
/// `d` for a column makes that column sort by `f` in direction `d`.
pub proof fn lemma_column_sort_uses_own_setting(
    todo: (i32, bool),
    in_progress: (i32, bool),
    done: (i32, bool),
    other_todo: (i32, bool),
    other_in_progress: (i32, bool),
    other_done: (i32, bool),
    f: SortField,
    d: bool,
)
    ensures
        column_sort_spec(TaskStatus::Todo, todo, in_progress, done)
            == column_sort_spec(TaskStatus::Todo, todo, other_in_progress, other_done),
        column_sort_spec(TaskStatus::InProgress, todo, in_progress, done)
            == column_sort_spec(TaskStatus::InProgress, other_todo, in_progress, other_done),
        column_sort_spec(TaskStatus::Done, todo, in_progress, done)
            == column_sort_spec(TaskStatus::Done, other_todo, other_in_progress, done),
        column_sort_spec(TaskStatus::Todo, (sort_field_code(f) as i32, d), in_progress, done)
            == (SortConfig { field: f, direction: d }),
        column_sort_spec(TaskStatus::InProgress, todo, (sort_field_code(f) as i32, d), done)
            == (SortConfig { field: f, direction: d }),
        column_sort_spec(TaskStatus::Done, todo, in_progress, (sort_field_code(f) as i32, d))
            == (SortConfig { field: f, direction: d }),
{
}

/// Same-column drag reordering is allowed only when the column is sorted
/// manually: any other sort would immediately undo the move.
pub fn can_reorder_in_column(config: SortConfig) -> (r: bool)
    ensures
        r == (config.field == SortField::Manual),
{
    config.field == SortField::Manual
}

// ---- Drag and drop ----

/// A drop that moves a task, as planned before touching the database.
#[derive(Debug, Clone, Copy, PartialEq, Eq, Structural)]
pub struct DropMove {
    pub task_id: i64,
    pub source_status: TaskStatus,
    pub target_status: TaskStatus,
    /// The task stays in its column (its own key must be left out when
    /// computing neighbours).
    pub same_column: bool,
    pub source_index: i32,
    /// The target index in the column without the dragged task.
    pub effective_index: i32,
}

/// The index a drop lands at once the dragged task is taken out of its own
/// column: dropping further down the same column shifts up by one.
pub open spec fn effective_drop_index(source_column: int, source_index: int, target_column: int, target_index: int) -> int {
    if source_column == target_column && source_index < target_index {
        target_index - 1
    } else {
        target_index
    }
}

/// A drop does nothing when either column is unknown, or when it stays in the
/// same column and either lands where it started or the column is not
/// sorted manually.
pub open spec fn drop_is_noop(
    source_column: int,
    source_index: int,
    target_column: int,
    target_index: int,
    target_is_manual: bool,
) -> bool {
    ||| status_from_code(target_column) is None
    ||| status_from_code(source_column) is None
    ||| (source_column == target_column && (source_index == effective_drop_index(
        source_column,
        source_index,
        target_column,
        target_index,
    ) || !target_is_manual))
}

/// Plans a drop of task `task_id` from `(source_column, source_index)` onto
/// `(target_column, target_index)`. `target_is_manual` says whether the
/// target column is sorted manually. `None` means the drop is refused.
pub fn plan_drop(
    task_id: i64,
    source_column: i32,
    source_index: i32,
    target_column: i32,
    target_index: i32,
    target_is_manual: bool,
) -> (r: Option<DropMove>)
    ensures
        r is None <==> drop_is_noop(
            source_column as int,
            source_index as int,
            target_column as int,
            target_index as int,
            target_is_manual,
        ),
        r matches Some(m) ==> {
            &&& m.task_id == task_id
            &&& status_from_code(source_column as int) == Some(m.source_status)
            &&& status_from_code(target_column as int) == Some(m.target_status)
            &&& m.same_column == (source_column == target_column)
            &&& m.source_index == source_index
            &&& m.effective_index as int == effective_drop_index(
                source_column as int,
                source_index as int,
                target_column as int,
                target_index as int,
            )
        },
        r matches Some(m) ==> (source_column == target_column && source_index < target_index
            ==> m.effective_index == target_index - 1),
        r matches Some(m) ==> (!(source_column == target_column && source_index < target_index)
            ==> m.effective_index == target_index),
        r matches Some(m) ==> (source_column == target_column ==> m.effective_index != source_index),
        status_from_code(source_column as int) is None ==> r is None,
        status_from_code(target_column as int) is None ==> r is None,
        source_column == target_column && !target_is_manual ==> r is None,
        source_column == target_column && (target_index == source_index || target_index == source_index + 1)
            ==> r is None,
        source_column != target_column && status_from_code(source_column as int) is Some
            && status_from_code(target_column as int) is Some ==> r is Some,
        source_column == target_column && target_is_manual && status_from_code(source_column as int) is Some
            && target_index != source_index && target_index != source_index + 1 ==> r is Some,
{
    let target_status = match TaskStatus::from_i32(target_column) {
        Some(s) => s,
        None => {
            return None;
        },
    };
    let source_status = match TaskStatus::from_i32(source_column) {
        Some(s) => s,
        None => {
            return None;
        },
    };
    let effective_index = if source_column == target_column && source_index < target_index {
        target_index - 1
    } else {
        target_index
    };
    let same_column = source_column == target_column;
    if same_column {
        if source_index == effective_index {
            return None;
        }
        if !target_is_manual {
            return None;
        }
    }
    Some(DropMove { task_id, source_status, target_status, same_column, source_index, effective_index })
}

/// Dropping onto slot `t` of a column shown as `l` (the slot before `l[t]`,
/// or the end when `t == l.len()`) while `l[s]` is dragged: in the column
/// without the dragged card, the new position has the card shown above the
/// slot just before it and the card shown below the slot just after it.
pub proof fn lemma_drop_lands_between_neighbours<A>(l: Seq<A>, column: int, s: int, t: int)
    requires
        0 <= s < l.len(),
        0 <= t <= l.len(),
    ensures
        0 <= effective_drop_index(column, s, column, t) <= l.remove(s).len(),
        0 < t && t - 1 != s ==> 0 < effective_drop_index(column, s, column, t)
            && l.remove(s)[effective_drop_index(column, s, column, t) - 1] == l[t - 1],
        t < l.len() && t != s ==> effective_drop_index(column, s, column, t) < l.remove(s).len()
            && l.remove(s)[effective_drop_index(column, s, column, t)] == l[t],
{
}

/// A drop onto another column keeps its target index.
pub proof fn lemma_drop_to_other_column_keeps_index(source_column: int, s: int, target_column: int, t: int)
    requires
        source_column != target_column,
    ensures
        effective_drop_index(source_column, s, target_column, t) == t,
{
}

/// Dropping a card just above or just below itself in its own column moves
/// nothing.
pub proof fn lemma_drop_next_to_itself_is_noop(column: int, s: int, manual: bool)
    ensures
        drop_is_noop(column, s, column, s, manual),
        drop_is_noop(column, s, column, s + 1, manual),
{
}

// ---- Cards ----

/// The tags the map lists for `id`, or none.
pub open spec fn tags_for(tags: Map<i64, Vec<String>>, id: i64) -> Seq<String> {
    if tags.contains_key(id) {
        tags[id]@
    } else {
        Seq::empty()
    }
}

/// Pairs each task of a column, in order, with its tags from `tags` (no tags
/// when the map has no entry for the task).
pub fn attach_tags(tasks: Vec<Task>, tags: &HashMap<i64, Vec<String>>) -> (r: Vec<(Task, Vec<String>)>)
    ensures
        r.len() == tasks.len(),
        forall|i: int| 0 <= i < tasks.len() ==> (#[trigger] r@[i]).0 == tasks@[i],
        forall|i: int| 0 <= i < tasks.len() ==> (#[trigger] r@[i]).1@ == tags_for(tags@, tasks@[i].id),
{
    broadcast use vstd::std_specs::hash::group_hash_axioms;
    let ghost orig = tasks@;
    let mut rest = tasks;
    let mut r: Vec<(Task, Vec<String>)> = Vec::new();
    while rest.len() > 0
        invariant
            r.len() + rest.len() == orig.len(),
            rest@ == orig.skip(r.len() as int),
            forall|i: int| 0 <= i < r.len() ==> (#[trigger] r@[i]).0 == orig[i],
            forall|i: int| 0 <= i < r.len() ==> (#[trigger] r@[i]).1@ == tags_for(tags@, orig[i].id),
        decreases rest.len(),
    {
        let task = rest.remove(0);
        let task_tags = match tags.get(&task.id) {
            Some(names) => names.clone(),
            None => Vec::new(),
        };
        assert(task_tags@ =~= tags_for(tags@, task.id));
        let ghost k = r.len() as int;
        r.push((task, task_tags));
        assert(rest@ =~= orig.skip(r.len() as int));
    }
    r
}

// ---- Closing the window ----

/// What closing the window does.
#[derive(Debug, Clone, Copy, PartialEq, Eq, Structural)]
pub enum CloseAction {
    /// Quit the application.
    Quit,
    /// Hide the window and keep running in the tray.
    MinimizeToTray,
    /// No choice is stored: ask the user.
    Ask,
}

/// The text `quit`.
pub open spec fn quit_behavior() -> Seq<char> {
    seq!['q', 'u', 'i', 't']
}

/// The text `minimize_to_tray`.
pub open spec fn minimize_behavior() -> Seq<char> {
    seq!['m', 'i', 'n', 'i', 'm', 'i', 'z', 'e', '_', 't', 'o', '_', 't', 'r', 'a', 'y']
}

fn str_equal(a: &str, b: &str) -> (r: bool)
    ensures
        r == (a@ == b@),
{
    let n = a.unicode_len();
    if n != b.unicode_len() {
        return false;
    }
    let mut i: usize = 0;
    while i < n
        invariant
            n == a@.len(),
            n == b@.len(),
            i <= n,
            forall|k: int| 0 <= k < i ==> a@[k] == b@[k],
        decreases n - i,
    {
        if a.get_char(i) != b.get_char(i) {
            return false;
        }
        i = i + 1;
    }
    assert(a@ =~= b@);
    true
}

/// The action for a stored close-behavior string: `quit` quits,
/// `minimize_to_tray` hides to the tray, anything else asks.
pub fn close_action(behavior: &str) -> (r: CloseAction)
    ensures
        r == (if behavior@ == quit_behavior() {
            CloseAction::Quit
        } else if behavior@ == minimize_behavior() {
            CloseAction::MinimizeToTray
        } else {
            CloseAction::Ask
        }),
{
    let quit = "quit";
    let minimize = "minimize_to_tray";
    proof {
        reveal_strlit("quit");
        reveal_strlit("minimize_to_tray");
    }
    assert(quit@ =~= quit_behavior());
    assert(minimize@ =~= minimize_behavior());
    if str_equal(behavior, quit) {
        CloseAction::Quit
    } else if str_equal(behavior, minimize) {
        CloseAction::MinimizeToTray
    } else {
        CloseAction::Ask
    }
}

/// The behavior to store when the user picks one in the close dialog: the
/// choice itself if "don't ask again" is ticked, otherwise nothing (the
/// dialog shows again next time).
pub fn close_behavior_to_store(choice: &str, dont_ask_again: bool) -> (r: Option<String>)
    ensures
        r matches Some(s) ==> dont_ask_again && s@ == choice@ && choice@.len() > 0,
        r is None <==> (!dont_ask_again || choice@.len() == 0),
{
    if dont_ask_again && !choice.is_empty() {
        Some(String::from_str(choice))
    } else {
        None
    }
}

} // verus!
