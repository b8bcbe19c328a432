use vstd::prelude::*;

verus! {

/// Platform-independent card data, converted to the UI's card type by the front end.
#[derive(Debug, Clone)]
pub struct TaskCardData {
    pub id: String,
    pub title: String,
    pub priority: i32,
    pub due_text: String,
    pub is_overdue: bool,
    pub tags: Vec<String>,
}

} // verus!
