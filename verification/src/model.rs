pub mod project;
pub mod settings;
pub mod sort;
pub mod task;
pub mod task_card_data;
pub mod task_status;

pub use project::Project;
pub use settings::Settings;
pub use sort::{SortConfig, SortField};
pub use task::Task;
pub use task_card_data::TaskCardData;
pub use task_status::TaskStatus;
