//! State machines and rules behind the main window.

pub mod reload_gate;
pub mod task_list_ui;
pub mod project_editor;
pub mod tag_editor;
pub mod app;
pub mod filters;
pub mod ordering;
pub mod runtime_store;
pub mod recurrence;
