//! The status that a gRPC client sees.

use crate::error;
use crate::error::{Error, ErrorView};
use crate::service;
use crate::service::{Effect, ServiceView};
use crate::store::kv;
use crate::store::kv::{KvStore, Rows, Write};
use vstd::prelude::*;
use vstd::string::*;

verus! {

/// The canonical codes that this service answers with.
#[derive(Debug, Clone, Copy, PartialEq, Eq, Structural)]
pub enum Code {
    /// A request is not valid.
    InvalidArgument,
    /// A resource does not exist.
    NotFound,
    /// A resource exists already.
    AlreadyExists,
    /// The server is out of a resource.
    ResourceExhausted,
    /// The system is not in a state for the request.
    FailedPrecondition,
    /// The method is not implemented.
    Unimplemented,
    /// Something went wrong inside.
    Internal,
    /// The server cannot serve the request for now.
    Unavailable,
}

/// A status.
#[derive(Debug)]
pub struct Status {
    /// The code.
    pub code: Code,
    /// The text for the client.
    pub message: String,
}

/// What a [`Status`] holds.
pub struct StatusView {
    pub code: Code,
    pub message: Seq<char>,
}

impl View for Status {
    type V = StatusView;

    open spec fn view(&self) -> StatusView {
        StatusView { code: self.code, message: self.message@ }
    }
}

/// The code for an error.
pub open spec fn code_of(e: ErrorView) -> Code {
    match e {
        ErrorView::NotFound { .. } => Code::NotFound,
        ErrorView::AlreadyExists { .. } => Code::AlreadyExists,
        ErrorView::InvalidArgument { .. } => Code::InvalidArgument,
        ErrorView::FailedPrecondition { .. } => Code::FailedPrecondition,
        ErrorView::ResourceExhausted { .. } => Code::ResourceExhausted,
        ErrorView::Unavailable { .. } => Code::Unavailable,
        ErrorView::Unimplemented { .. } => Code::Unimplemented,
        ErrorView::Internal { .. } => Code::Internal,
    }
}

/// The status for an error. Internal details are left out.
pub open spec fn status_of(e: ErrorView) -> StatusView {
    StatusView { code: code_of(e), message: error::client_message(e) }
}

/// The status for an error. Internal details are left out.
pub fn to_status(err: Error) -> (r: Status)
    ensures
        r@ == status_of(err@),
{
    let message = err.client_message();
    let code = match err {
        Error::NotFound { .. } => Code::NotFound,
        Error::AlreadyExists { .. } => Code::AlreadyExists,
        Error::InvalidArgument { .. } => Code::InvalidArgument,
        Error::FailedPrecondition { .. } => Code::FailedPrecondition,
        Error::ResourceExhausted { .. } => Code::ResourceExhausted,
        Error::Unavailable { .. } => Code::Unavailable,
        Error::Unimplemented { .. } => Code::Unimplemented,
        Error::Internal { .. } => Code::Internal,
    };
    Status { code, message }
}

impl Status {
    /// A request that is not valid.
    pub fn invalid_argument(message: &str) -> (r: Status)
        ensures
            r@ == (StatusView { code: Code::InvalidArgument, message: message@ }),
    {
        Status { code: Code::InvalidArgument, message: String::from_str(message) }
    }

    /// A method that is not implemented.
    pub fn unimplemented(message: &str) -> (r: Status)
        ensures
            r@ == (StatusView { code: Code::Unimplemented, message: message@ }),
    {
        Status { code: Code::Unimplemented, message: String::from_str(message) }
    }

    /// A server that cannot serve the request for now.
    pub fn unavailable(message: &str) -> (r: Status)
        ensures
            r@ == (StatusView { code: Code::Unavailable, message: message@ }),
    {
        Status { code: Code::Unavailable, message: String::from_str(message) }
    }
}

/// The code and the HTTP status of an error name the same thing, so gRPC and REST clients are told
/// alike: two errors with the same code have the same HTTP status and status name.
pub proof fn law_codes_and_http_statuses_agree(a: ErrorView, b: ErrorView)
    ensures
        code_of(a) == code_of(b) ==> error::error_code(a) == error::error_code(b),
        status_of(a).message == error::client_message(a),
{
}

/// What a reply holds.
pub open spec fn reply_view<T: View>(r: Result<T, Status>) -> Result<T::V, StatusView> {
    match r {
        Ok(v) => Ok(v@),
        Err(s) => Err(s@),
    }
}

/// The reply to a request: what the operation returned, as `wire` puts it, or the status for its
/// error.
pub open spec fn reply<A, B>(outcome: Result<A, ErrorView>, wire: spec_fn(A) -> B) -> Result<
    B,
    StatusView,
> {
    match outcome {
        Ok(v) => Ok(wire(v)),
        Err(e) => Err(status_of(e)),
    }
}

/// The operation changed the store as [`kv::stored`] says, and `r` is the reply for what it
/// returned.
pub open spec fn stored<T: View, K: KvStore, B>(
    before: Rows,
    after: Rows,
    failure: Option<ErrorView>,
    value: T::V,
    writes: Seq<Write>,
    wire: spec_fn(T::V) -> B,
    r: Result<B, StatusView>,
) -> bool {
    exists|outcome: Result<T, Error>| #[trigger]
        kv::stored::<T, K>(outcome, before, after, failure, value, writes) && r == reply(
            error::result_view(outcome),
            wire,
        )
}

/// The operation came to `effect`, and `r` is the reply for what it returned.
pub open spec fn served<K: KvStore, A, B>(
    before: ServiceView,
    after: ServiceView,
    effect: Effect<A>,
    wire: spec_fn(A) -> B,
    r: Result<B, StatusView>,
) -> bool {
    exists|outcome: Result<A, ErrorView>| #[trigger]
        service::performed::<K, A>(before, after, effect, outcome) && r == reply(outcome, wire)
}

} // verus!
