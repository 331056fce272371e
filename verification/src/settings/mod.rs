//! Settings: the stored preferences, their clean-up rules and the language choice.

pub mod locale;
pub mod font;
pub mod model;
pub mod sorting;
pub mod datetime_format;
pub mod edits;
pub mod timezone;
pub mod navigation;
