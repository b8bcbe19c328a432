pub mod index_keys;
pub mod tag;
pub mod task;
