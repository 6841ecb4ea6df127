//! The failure that the feed reports.

use vstd::prelude::*;

verus! {

/// Error type, which can partially get sent to user
#[derive(Clone, Debug)]
pub struct Error {
    /// The bit that is shown to user
    pub message: String,
    /// The bit that gets printed to logs, but not to user
    pub details: Option<String>,
}

pub struct ErrorView {
    pub message: Seq<char>,
    pub details: Option<Seq<char>>,
}

impl View for Error {
    type V = ErrorView;

    open spec fn view(&self) -> ErrorView {
        ErrorView { message: self.message@, details: self.details.deep_view() }
    }
}

impl DeepView for Error {
    type V = ErrorView;

    open spec fn deep_view(&self) -> ErrorView {
        self@
    }
}

impl Default for Error {
    fn default() -> (error: Error)
        ensures
            error@ == (ErrorView { message: Seq::empty(), details: None }),
    {
        Error { message: String::new(), details: None }
    }
}

} // verus!
