//! Conversions between what the user interface shows and the values the
//! domain stores.

pub mod color;
pub mod datetime;
pub mod datetime_input;
pub mod project;
pub mod task;
pub mod recurrence;
pub mod tag;
