//! The error that a REST client sees.

use crate::encoding;
use crate::encoding::Members;
use crate::error;
use crate::error::{Error, ErrorView};
use crate::text;
use vstd::prelude::*;
use vstd::string::*;

verus! {

/// An error, or a method that is not part of this API.
#[derive(Debug)]
pub enum RestError {
    /// An error.
    Domain(Error),
    /// A method that is not part of this API.
    Unimplemented {
        /// The text for the client.
        message: String,
    },
}

/// What a [`RestError`] holds.
pub enum RestErrorView {
    Domain(ErrorView),
    Unimplemented { message: Seq<char> },
}

impl View for RestError {
    type V = RestErrorView;

    open spec fn view(&self) -> RestErrorView {
        match self {
            RestError::Domain(e) => RestErrorView::Domain(e@),
            RestError::Unimplemented { message } => RestErrorView::Unimplemented {
                message: message@,
            },
        }
    }
}

impl From<Error> for RestError {
    fn from(e: Error) -> (r: Self) {
        RestError::Domain(e)
    }
}

impl vstd::std_specs::convert::FromSpecImpl<Error> for RestError {
    open spec fn obeys_from_spec() -> bool {
        true
    }

    open spec fn from_spec(e: Error) -> Self {
        RestError::Domain(e)
    }
}

/// A response: the HTTP status and the JSON body.
#[derive(Debug)]
pub struct RestResponse {
    /// The HTTP status.
    pub status: u16,
    /// The body.
    pub body: String,
}

/// The HTTP status, the status name and the text for the client.
pub open spec fn error_parts(e: RestErrorView) -> (int, Seq<char>, Seq<char>) {
    match e {
        RestErrorView::Domain(e) => (
            error::error_code(e).1,
            error::error_code(e).0,
            error::client_message(e),
        ),
        RestErrorView::Unimplemented { message } => (501, "UNIMPLEMENTED"@, message),
    }
}

/// The body `{"error":{"code":..,"message":..,"status":..}}`.
pub open spec fn error_body(e: RestErrorView) -> Seq<char> {
    let (code, name, message) = error_parts(e);
    encoding::object_text(
        seq![
            (
                "\"error\""@,
                encoding::object_text(
                    seq![
                        ("\"code\""@, text::dec(code as nat)),
                        ("\"message\""@, encoding::json_quoted(message)),
                        ("\"status\""@, encoding::json_quoted(name)),
                    ],
                ),
            ),
        ],
    )
}

impl RestError {
    /// The response for an error. Internal details are left out.
    pub fn into_response(self) -> (r: RestResponse)
        ensures
            r.status == error_parts(self@).0,
            r.body@ == error_body(self@),
    {
        let (status, name, message) = match &self {
            RestError::Domain(e) => {
                let (name, status) = e.code();
                (status, name, e.client_message())
            },
            RestError::Unimplemented { message } => (501u16, "UNIMPLEMENTED", message.clone()),
        };
        let code = text::u64_text(status as u64);
        let quoted_message = encoding::json_string(message.as_str());
        let quoted_name = encoding::json_string(name);
        let ghost members: Members = seq![
            ("\"code\""@, code@),
            ("\"message\""@, quoted_message@),
            ("\"status\""@, quoted_name@),
        ];
        let detail = vec![
            (String::from_str("\"code\""), code),
            (String::from_str("\"message\""), quoted_message),
            (String::from_str("\"status\""), quoted_name),
        ];
        assert(encoding::members_of(detail@) =~= members);
        let detail_text = encoding::object(&detail);
        let ghost outer: Members = seq![("\"error\""@, detail_text@)];
        let body = vec![(String::from_str("\"error\""), detail_text)];
        assert(encoding::members_of(body@) =~= outer);
        RestResponse { status, body: encoding::object(&body) }
    }
}

} // verus!
