use crate::error::{DomainError, DomainErrorView};
use vstd::prelude::*;
use vstd::string::*;

verus! {

/// How a call ended that did not succeed.
#[derive(Clone, Copy, Debug, PartialEq, Eq, Structural)]
pub enum Code {
    /// What was asked for is not there.
    NotFound,
    /// The request lacks something.
    InvalidArgument,
    /// Anything else.
    Internal,
}

/// The answer to a call that did not succeed.
#[derive(Debug, PartialEq, Eq)]
pub struct Status {
    pub code: Code,
    pub message: String,
}

/// A [`Status`] with its message as a sequence of characters.
pub struct StatusView {
    pub code: Code,
    pub message: Seq<char>,
}

impl View for Status {
    type V = StatusView;

    open spec fn view(&self) -> StatusView {
        StatusView { code: self.code, message: self.message@ }
    }
}

/// The answer to a request that lacks something.
pub open spec fn invalid_argument() -> StatusView {
    StatusView { code: Code::InvalidArgument, message: "InvalidArgument"@ }
}

/// The answer that tells a caller of an error: what is not there is told
/// as such, with the identifier that was looked for; everything else is an
/// internal error. A failure of the store is told with its own words, an
/// error of a rule with the message of the error.
pub open spec fn status_of(error: DomainErrorView) -> StatusView {
    match error {
        DomainErrorView::NotFound(id) => StatusView { code: Code::NotFound, message: id },
        DomainErrorView::Unexpected(text) => StatusView { code: Code::Internal, message: text },
        _ => StatusView { code: Code::Internal, message: error.message() },
    }
}

/// The outcome is an error, and the status tells a caller of that error.
pub open spec fn told<T>(outcome: Result<T, DomainErrorView>, status: StatusView) -> bool {
    outcome is Err && status == status_of(outcome->Err_0)
}

/// Tells a caller of an error.
pub fn handle_error(error: DomainError) -> (status: Status)
    ensures
        status@ == status_of(error@),
{
    match error {
        DomainError::NotFound(e) => Status { code: Code::NotFound, message: e },
        DomainError::Unexpected(e) => Status { code: Code::Internal, message: e },
        other => Status { code: Code::Internal, message: other.to_string() },
    }
}

/// The answer to a request that lacks something.
pub fn invalid_argument_status() -> (status: Status)
    ensures
        status@ == invalid_argument(),
{
    Status { code: Code::InvalidArgument, message: String::from_str("InvalidArgument") }
}

} // verus!
