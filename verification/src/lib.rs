//! Query language, settings rules and small state machines behind the Flequit
//! task manager's user interface, with their contracts.

pub mod text;
pub mod search;
pub mod settings;
pub mod adapters;
pub mod viewmodels;
pub mod error;
