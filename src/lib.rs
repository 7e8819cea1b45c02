//! A daily task-list manager: the domain model, the editable text format
//! (its renderer and its lenient parser) and the date-keyed rollover
//! bookkeeping.
pub mod checkbox;
pub mod checklist;
pub mod date;
pub mod error;
pub mod files;
pub mod format;
pub mod parser;
pub mod priority;
pub mod round_trip;
pub mod task;
pub mod text;

pub use checkbox::Checkbox;
pub use checklist::Checklist;
pub use date::Date;
pub use error::Error;
pub use parser::Parser;
pub use priority::Priority;
pub use task::{Task, TaskSet};
