//! Error type for looking up API credentials.

use vstd::prelude::*;

verus! {

/// Raised when an API entry cannot be found or used.
#[derive(Debug)]
pub enum KeyError {
    InvalidKey,
    MissingKey,
    NotFound,
}

impl KeyError {
    /// A human-readable description of the error.
    pub fn message(&self) -> (m: &str)
        ensures
            self is InvalidKey ==> m@ == "Invalid Key, please check for typos"@,
            self is MissingKey ==> m@ == "Missing Key, got empty string"@,
            self is NotFound ==> m@ == "Not Found, please check if entry exists"@,
    {
        match self {
            KeyError::InvalidKey => "Invalid Key, please check for typos",
            KeyError::MissingKey => "Missing Key, got empty string",
            KeyError::NotFound => "Not Found, please check if entry exists",
        }
    }
}

} // verus!
