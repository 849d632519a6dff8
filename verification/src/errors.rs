//! The error type the command layer reports to the user interface.
use vstd::prelude::*;

verus! {

/// An error with a user-facing message.
#[derive(Debug)]
pub enum AppError {
    Other(String),
}

impl AppError {
    /// The message shown to the user.
    pub open spec fn message(self) -> Seq<char> {
        match self {
            AppError::Other(m) => m@,
        }
    }

    /// The message as an owned string (what `to_string` shows).
    pub fn to_message(&self) -> (r: String)
        ensures
            r@ == self.message(),
    {
        match self {
            AppError::Other(m) => m.clone(),
        }
    }
}

} // verus!
