//! The error of a lookup that the menu takes for valid and that is not.

use vstd::prelude::*;

verus! {

/// A lookup into the entry list that cannot be made.
#[derive(Clone, Copy, Debug, PartialEq, Eq, Structural)]
pub enum LogicError {
    /// An index handed in by the host lies beyond the entry list.
    IndexOutOfRange,
    /// No entry begins with the input, and the list has no second entry to fall back on.
    NoFallbackCandidate,
}

impl LogicError {
    /// A sentence that describes the error.
    pub fn describe(&self) -> (text: String)
        ensures
            text@ == match *self {
                LogicError::IndexOutOfRange => "selection index out of range"@,
                LogicError::NoFallbackCandidate => "no entry to complete the input with"@,
            },
    {
        match self {
            LogicError::IndexOutOfRange => "selection index out of range".to_string(),
            LogicError::NoFallbackCandidate => "no entry to complete the input with".to_string(),
        }
    }
}

} // verus!
