//! Errors shown to the user.
//!
//! An error carries a stable code rather than a message: the interface
//! translates the code, so no user-facing text is built here.

use vstd::prelude::*;

verus! {

/// A failure that reached the interface and must be shown to the user.
#[derive(Debug, Clone, PartialEq, Eq)]
pub enum UiError {
    /// A domain operation failed. The detail is for logs only.
    Domain { code: &'static str, detail: String },
    /// An operating-system operation failed, with its description.
    Platform(String),
    /// An identifier from the interface could not be read.
    MalformedId(String),
}

/// The code the interface translates for an error.
pub open spec fn code_of(e: UiError) -> Seq<char> {
    match e {
        UiError::Domain { code, .. } => code@,
        UiError::Platform(_) => "platform.failed"@,
        UiError::MalformedId(_) => "input.malformed-id"@,
    }
}

impl UiError {
    /// A domain error with the code the interface should show.
    pub fn domain(code: &'static str, detail: &str) -> (r: Self)
        ensures
            r matches UiError::Domain { code: c, detail: d } && c@ == code@ && d@ == detail@,
    {
        UiError::Domain { code, detail: detail.to_owned() }
    }

    /// The stable code the interface maps to translated text.
    pub fn code(&self) -> (r: &'static str)
        ensures
            r@ == code_of(*self),
    {
        match self {
            UiError::Domain { code, .. } => code,
            UiError::Platform(_) => "platform.failed",
            UiError::MalformedId(_) => "input.malformed-id",
        }
    }
}

} // verus!
