//! What a caller is told when a request ends without a feed.

use crate::types::{Error, ErrorView};
use vstd::prelude::*;
use vstd::string::*;

verus! {

/// The status of a request for something that is not there.
pub const NOT_FOUND: u16 = 404;

/// The status of a request that failed here.
pub const INTERNAL_SERVER_ERROR: u16 = 500;

/// An API error serializable to JSON.
#[derive(Clone, Debug)]
pub struct ErrorMessage {
    pub code: u16,
    pub message: String,
}

pub struct ErrorMessageView {
    pub code: int,
    pub message: Seq<char>,
}

impl View for ErrorMessage {
    type V = ErrorMessageView;

    open spec fn view(&self) -> ErrorMessageView {
        ErrorMessageView { code: self.code as int, message: self.message@ }
    }
}

impl DeepView for ErrorMessage {
    type V = ErrorMessageView;

    open spec fn deep_view(&self) -> ErrorMessageView {
        self@
    }
}

/// Why a request ended without a feed.
#[derive(Clone, Debug)]
pub enum Rejection {
    /// Nothing answers to the path.
    NotFound,
    /// The feed could not be made.
    Failed(Error),
    /// Anything else.
    Other,
}

pub enum RejectionView {
    NotFound,
    Failed(ErrorView),
    Other,
}

impl View for Rejection {
    type V = RejectionView;

    open spec fn view(&self) -> RejectionView {
        match self {
            Rejection::NotFound => RejectionView::NotFound,
            Rejection::Failed(error) => RejectionView::Failed(error@),
            Rejection::Other => RejectionView::Other,
        }
    }
}

/// What the caller is told of a rejection: of a failure of the feed its own
/// message, and none of its details.
pub open spec fn error_message_of(rejection: RejectionView) -> ErrorMessageView {
    match rejection {
        RejectionView::NotFound => ErrorMessageView {
            code: NOT_FOUND as int,
            message: "404 - Not found"@,
        },
        RejectionView::Failed(error) => ErrorMessageView {
            code: INTERNAL_SERVER_ERROR as int,
            message: error.message,
        },
        RejectionView::Other => ErrorMessageView {
            code: INTERNAL_SERVER_ERROR as int,
            message: "500 - Internal server error"@,
        },
    }
}

/// Turns a rejection into what the caller is told.
pub fn handle_rejection(err: &Rejection) -> (reply: ErrorMessage)
    ensures
        reply@ == error_message_of(err@),
{
    match err {
        Rejection::NotFound => ErrorMessage {
            code: NOT_FOUND,
            message: String::from_str("404 - Not found"),
        },
        Rejection::Failed(error) => ErrorMessage {
            code: INTERNAL_SERVER_ERROR,
            message: error.message.clone(),
        },
        Rejection::Other => ErrorMessage {
            code: INTERNAL_SERVER_ERROR,
            message: String::from_str("500 - Internal server error"),
        },
    }
}

} // verus!
