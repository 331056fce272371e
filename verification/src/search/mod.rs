//! The search box: its query language, and how the query drives the task list.
//!
//! `@` names a due date, a state, a project, a list or a user; `#` names a tag;
//! anything else is free text; conditions combine with AND (space), OR (`|`),
//! NOT (`-`) and parentheses. The box shows short names while the internal
//! query keeps what each confirmed `@` token points at.

pub mod normalize;
pub mod vocabulary;
pub mod lexer;
pub mod due;
pub mod resolve;
pub mod readback;
pub mod document;
pub mod parser;
pub mod sidebar;
pub mod suggestion;
pub mod eval;
pub mod session;
pub mod candidate;
pub mod widths;
