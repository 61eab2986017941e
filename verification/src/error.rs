//! The error type shared by the whole library and its mapping to gRPC status names and HTTP
//! statuses.

use crate::text;
use vstd::prelude::*;
use vstd::string::*;

verus! {

/// A transport-agnostic error.
#[derive(Debug, Clone, PartialEq, Eq)]
pub enum Error {
    /// The resource does not exist.
    NotFound {
        /// What is missing, e.g. a full resource name.
        resource: String,
    },
    /// A resource with this identity exists already.
    AlreadyExists {
        /// What is there already, e.g. a full resource name.
        resource: String,
    },
    /// A request field failed validation.
    InvalidArgument {
        /// The offending field.
        field: String,
        /// Why the value was rejected.
        message: String,
    },
    /// The system is not in a state that allows the request.
    FailedPrecondition {
        /// An explanation.
        message: String,
    },
    /// The server is out of a needed resource.
    ResourceExhausted {
        /// An explanation.
        message: String,
    },
    /// The server cannot serve the request for now.
    Unavailable {
        /// An explanation.
        message: String,
    },
    /// The method is not implemented by this server.
    Unimplemented {
        /// The method's name.
        method: String,
    },
    /// An unexpected internal error.
    Internal {
        /// Details for the log, never for a client.
        message: String,
    },
}

/// What an [`Error`] says.
pub enum ErrorView {
    /// See [`Error::NotFound`].
    NotFound { resource: Seq<char> },
    /// See [`Error::AlreadyExists`].
    AlreadyExists { resource: Seq<char> },
    /// See [`Error::InvalidArgument`].
    InvalidArgument { field: Seq<char>, message: Seq<char> },
    /// See [`Error::FailedPrecondition`].
    FailedPrecondition { message: Seq<char> },
    /// See [`Error::ResourceExhausted`].
    ResourceExhausted { message: Seq<char> },
    /// See [`Error::Unavailable`].
    Unavailable { message: Seq<char> },
    /// See [`Error::Unimplemented`].
    Unimplemented { method: Seq<char> },
    /// See [`Error::Internal`].
    Internal { message: Seq<char> },
}

impl View for Error {
    type V = ErrorView;

    open spec fn view(&self) -> ErrorView {
        match *self {
            Error::NotFound { resource } => ErrorView::NotFound { resource: resource@ },
            Error::AlreadyExists { resource } => ErrorView::AlreadyExists { resource: resource@ },
            Error::InvalidArgument { field, message } => ErrorView::InvalidArgument {
                field: field@,
                message: message@,
            },
            Error::FailedPrecondition { message } => ErrorView::FailedPrecondition {
                message: message@,
            },
            Error::ResourceExhausted { message } => ErrorView::ResourceExhausted {
                message: message@,
            },
            Error::Unavailable { message } => ErrorView::Unavailable { message: message@ },
            Error::Unimplemented { method } => ErrorView::Unimplemented { method: method@ },
            Error::Internal { message } => ErrorView::Internal { message: message@ },
        }
    }
}

/// The canonical status name and the HTTP status of an error.
pub open spec fn error_code(e: ErrorView) -> (Seq<char>, int) {
    match e {
        ErrorView::NotFound { .. } => ("NOT_FOUND"@, 404),
        ErrorView::AlreadyExists { .. } => ("ALREADY_EXISTS"@, 409),
        ErrorView::InvalidArgument { .. } => ("INVALID_ARGUMENT"@, 400),
        ErrorView::FailedPrecondition { .. } => ("FAILED_PRECONDITION"@, 400),
        ErrorView::ResourceExhausted { .. } => ("RESOURCE_EXHAUSTED"@, 429),
        ErrorView::Unavailable { .. } => ("UNAVAILABLE"@, 503),
        ErrorView::Unimplemented { .. } => ("UNIMPLEMENTED"@, 501),
        ErrorView::Internal { .. } => ("INTERNAL"@, 500),
    }
}

/// How an error reads in a log. Internal details are left out.
pub open spec fn error_text(e: ErrorView) -> Seq<char> {
    match e {
        ErrorView::NotFound { resource } => "not found: "@ + resource,
        ErrorView::AlreadyExists { resource } => "already exists: "@ + resource,
        ErrorView::InvalidArgument { field, message } => "invalid argument ("@ + field + "): "@
            + message,
        ErrorView::FailedPrecondition { message } => "failed precondition: "@ + message,
        ErrorView::ResourceExhausted { message } => "resource exhausted: "@ + message,
        ErrorView::Unavailable { message } => "unavailable: "@ + message,
        ErrorView::Unimplemented { method } => "unimplemented: "@ + method,
        ErrorView::Internal { .. } => "internal error"@,
    }
}

/// What a client is told about an error. Internal details are left out.
pub open spec fn client_message(e: ErrorView) -> Seq<char> {
    match e {
        ErrorView::NotFound { resource } => resource + " not found"@,
        ErrorView::AlreadyExists { resource } => resource + " already exists"@,
        ErrorView::InvalidArgument { field, message } => field + ": "@ + message,
        ErrorView::FailedPrecondition { message } => message,
        ErrorView::ResourceExhausted { message } => message,
        ErrorView::Unavailable { message } => message,
        ErrorView::Unimplemented { method } => method + " is not implemented"@,
        ErrorView::Internal { .. } => "internal error"@,
    }
}

impl Error {
    /// The canonical gRPC status name and the matching HTTP status.
    pub fn code(&self) -> (r: (&'static str, u16))
        ensures
            (r.0@, r.1 as int) == error_code(self@),
    {
        match self {
            Error::NotFound { .. } => ("NOT_FOUND", 404),
            Error::AlreadyExists { .. } => ("ALREADY_EXISTS", 409),
            Error::InvalidArgument { .. } => ("INVALID_ARGUMENT", 400),
            Error::FailedPrecondition { .. } => ("FAILED_PRECONDITION", 400),
            Error::ResourceExhausted { .. } => ("RESOURCE_EXHAUSTED", 429),
            Error::Unavailable { .. } => ("UNAVAILABLE", 503),
            Error::Unimplemented { .. } => ("UNIMPLEMENTED", 501),
            Error::Internal { .. } => ("INTERNAL", 500),
        }
    }

    /// How the error reads in a log.
    pub fn to_string(&self) -> (s: String)
        ensures
            s@ == error_text(self@),
    {
        match self {
            Error::NotFound { resource } => text::cat2("not found: ", resource.as_str()),
            Error::AlreadyExists { resource } => text::cat2("already exists: ", resource.as_str()),
            Error::InvalidArgument { field, message } => text::cat4(
                "invalid argument (",
                field.as_str(),
                "): ",
                message.as_str(),
            ),
            Error::FailedPrecondition { message } => text::cat2(
                "failed precondition: ",
                message.as_str(),
            ),
            Error::ResourceExhausted { message } => text::cat2(
                "resource exhausted: ",
                message.as_str(),
            ),
            Error::Unavailable { message } => text::cat2("unavailable: ", message.as_str()),
            Error::Unimplemented { method } => text::cat2("unimplemented: ", method.as_str()),
            Error::Internal { .. } => String::from_str("internal error"),
        }
    }

    /// What a client is told.
    pub fn client_message(&self) -> (s: String)
        ensures
            s@ == client_message(self@),
    {
        match self {
            Error::NotFound { resource } => text::cat2(resource.as_str(), " not found"),
            Error::AlreadyExists { resource } => text::cat2(resource.as_str(), " already exists"),
            Error::InvalidArgument { field, message } => text::cat3(
                field.as_str(),
                ": ",
                message.as_str(),
            ),
            Error::FailedPrecondition { message } => message.clone(),
            Error::ResourceExhausted { message } => message.clone(),
            Error::Unavailable { message } => message.clone(),
            Error::Unimplemented { method } => text::cat2(method.as_str(), " is not implemented"),
            Error::Internal { .. } => String::from_str("internal error"),
        }
    }
}

/// The view of an [`Error::InvalidArgument`].
pub open spec fn invalid_argument(field: Seq<char>, message: Seq<char>) -> ErrorView {
    ErrorView::InvalidArgument { field, message }
}

/// What a result says: the view of its value, or of its error.
pub open spec fn result_view<T: View>(r: Result<T, Error>) -> Result<T::V, ErrorView> {
    match r {
        Ok(v) => Ok(v@),
        Err(e) => Err(e@),
    }
}

/// What comes of a check that either passes or fails with an error.
pub open spec fn checked(r: Result<(), Error>, failure: Option<ErrorView>) -> bool {
    match failure {
        Some(e) => r is Err && r->Err_0@ == e,
        None => r is Ok,
    }
}

/// An [`Error::InvalidArgument`] for `field`.
pub fn invalid(field: &str, message: String) -> (e: Error)
    ensures
        e@ == (ErrorView::InvalidArgument { field: field@, message: message@ }),
{
    Error::InvalidArgument { field: String::from_str(field), message }
}

/// An [`Error::NotFound`] for `resource`.
pub fn not_found(resource: &str) -> (e: Error)
    ensures
        e@ == (ErrorView::NotFound { resource: resource@ }),
{
    Error::NotFound { resource: String::from_str(resource) }
}

/// An internal error never tells a client its details.
pub proof fn law_internal_details_are_not_told(details: Seq<char>, other: Seq<char>)
    ensures
        client_message(ErrorView::Internal { message: details }) == client_message(
            ErrorView::Internal { message: other },
        ),
        error_text(ErrorView::Internal { message: details }) == error_text(
            ErrorView::Internal { message: other },
        ),
{
}

} // verus!
