//! Core logic of a kanban-style task board: task statuses, per-column sort
//! configuration and ordering, fractional sort keys for drag-and-drop
//! placement, and the decisions the board makes between storage calls.

pub mod board;
pub mod db;
pub mod model;
pub mod order;
pub mod stable_sort;
