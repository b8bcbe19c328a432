# kanban

The verified core of a kanban-style task board (Todo / In progress / Done,
plus an archive), written in Verus.

Layout:

- `src/model/` — tasks, statuses, projects, settings, and column sorting
  (`sort_tasks`: manual order, priority, due date with undated tasks last,
  or pinyin-aware title order; a stable sort, proved against its contract).
- `src/db/` — the computations around the SQLite store: fractional sort keys
  for drag-and-drop placement (`new_sort_key_between`, `renumber_keys`,
  `next_sort_key`), neighbour lookup, rebalancing, row decoding and tag grouping.
- `src/board.rs` — decisions of the board window: which sort a column uses,
  what a drop does, what closing the window does.
- `src/order.rs`, `src/stable_sort.rs` — lexicographic order and the generic
  stable insertion sort.
- `app/` — the SQLite repositories, the settings file and a small binary that
  loads and prints the board.
- `tests/` — tests of the library.

Calls into `fractional_index`, `pinyin` and `chrono` go through small trusted
wrappers whose contracts state what those crates document.
