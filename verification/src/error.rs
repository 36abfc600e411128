//! What can go wrong.

use crate::text::concat2;
use vstd::prelude::*;

verus! {

/// An error of the tool.
#[derive(Debug, PartialEq, Eq)]
pub enum TickError {
    /// The requested data does not exist on the server.
    DatasetUnavailable(String),
    /// The user asked for something that makes no sense.
    InvalidArgument(String),
    /// Another process or task holds the lock at this path.
    LockHeld(String),
    /// A request failed.
    Request { status: Option<u16>, message: String, retryable: bool },
    /// Anything else.
    Other(String),
}

/// What an error says.
pub enum ErrorView {
    DatasetUnavailable(Seq<char>),
    InvalidArgument(Seq<char>),
    LockHeld(Seq<char>),
    Request { status: Option<u16>, message: Seq<char>, retryable: bool },
    Other(Seq<char>),
}

impl View for TickError {
    type V = ErrorView;

    open spec fn view(&self) -> ErrorView {
        match *self {
            TickError::DatasetUnavailable(message) => ErrorView::DatasetUnavailable(message@),
            TickError::InvalidArgument(message) => ErrorView::InvalidArgument(message@),
            TickError::LockHeld(path) => ErrorView::LockHeld(path@),
            TickError::Request { status, message, retryable } => ErrorView::Request {
                status,
                message: message@,
                retryable,
            },
            TickError::Other(message) => ErrorView::Other(message@),
        }
    }
}

impl ErrorView {
    /// The line that is shown for the error.
    pub open spec fn text(self) -> Seq<char> {
        match self {
            ErrorView::DatasetUnavailable(message) => message,
            ErrorView::InvalidArgument(message) => message,
            ErrorView::LockHeld(path) => "another sync is already running: "@ + path,
            ErrorView::Request { status, message, retryable } => message,
            ErrorView::Other(message) => message,
        }
    }
}

/// The error of a result, where it has one.
pub open spec fn failure<T>(result: Result<T, TickError>) -> Option<ErrorView> {
    match result {
        Ok(value) => None,
        Err(error) => Some(error@),
    }
}

impl TickError {
    /// The exit code of the process that ends with the error.
    pub fn exit_code(&self) -> (code: u8)
        ensures
            code == (if self is DatasetUnavailable {
                2u8
            } else {
                1u8
            }),
    {
        match self {
            TickError::DatasetUnavailable(_) => 2,
            TickError::InvalidArgument(_)
            | TickError::LockHeld(_)
            | TickError::Request { .. }
            | TickError::Other(_) => 1,
        }
    }

    /// Whether the same request may succeed later.
    pub fn retryable(&self) -> (res: bool)
        ensures
            res == (self matches TickError::Request { retryable: true, .. }),
    {
        match self {
            TickError::Request { retryable, .. } => *retryable,
            _ => false,
        }
    }

    /// The line that is shown for the error.
    pub fn text(&self) -> (out: String)
        ensures
            out@ == self@.text(),
    {
        match self {
            TickError::DatasetUnavailable(message) => message.clone(),
            TickError::InvalidArgument(message) => message.clone(),
            TickError::LockHeld(path) => concat2(
                "another sync is already running: ",
                path.as_str(),
            ),
            TickError::Request { status, message, retryable } => message.clone(),
            TickError::Other(message) => message.clone(),
        }
    }

    /// An `InvalidArgument` with the text `a` followed by `b`.
    pub fn invalid(a: &str, b: &str) -> (out: TickError)
        ensures
            out@ == ErrorView::InvalidArgument(a@ + b@),
    {
        TickError::InvalidArgument(concat2(a, b))
    }
}

/// A process that ends because the data does not exist has the exit code 2, one that ends with any
/// other error the exit code 1. Only an answer of the server can be worth another try.
pub proof fn lemma_exit_codes(error: TickError, code: u8, again: bool)
    requires
        call_ensures(TickError::exit_code, (&error,), code),
        call_ensures(TickError::retryable, (&error,), again),
    ensures
        code == 2 <==> error is DatasetUnavailable,
        code == 1 <==> !(error is DatasetUnavailable),
        again ==> error is Request && error->retryable,
        error is Request && error->retryable ==> again,
{
}

} // verus!
