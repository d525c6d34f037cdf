//! Errors reported by recording and flushing operations.

use vstd::prelude::*;

verus! {

/// Errors that can occur during metric collection and transmission.
#[derive(Debug)]
pub enum MetricsError {
    /// A custom error with a free-form message.
    Custom(String),
}

impl MetricsError {
    /// The error's message text.
    pub fn message(&self) -> (r: &str)
        ensures
            r@ == self.text(),
    {
        match self {
            MetricsError::Custom(s) => s.as_str(),
        }
    }

    /// The message carried by this error.
    pub open spec fn text(&self) -> Seq<char> {
        match self {
            MetricsError::Custom(s) => s@,
        }
    }
}

} // verus!
