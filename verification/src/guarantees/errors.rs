//! What clients are told when something is wrong.

use crate::encoding;
use crate::encoding::Members;
use crate::error;
use crate::error::{Error, ErrorView};
use crate::grpc::status;
use crate::grpc::status::{Code, Status};
use crate::rest::error as rest_error;
use crate::rest::error::{RestErrorView, RestResponse};
use crate::text;
use vstd::prelude::*;

verus! {

/// An error is answered with this code, this HTTP status, this name of the status and this text.
pub open spec fn is_answered(
    grpc: Status,
    rest: RestResponse,
    code: Code,
    http: u16,
    name: Seq<char>,
    message: Seq<char>,
) -> bool {
    &&& grpc.code == code
    &&& grpc.message@ == message
    &&& rest.status == http
    &&& rest.body@ == "{\"error\":{\"code\":"@ + text::dec(http as nat) + ",\"message\":"@
        + encoding::json_quoted(message) + ",\"status\":"@ + encoding::json_quoted(name) + "}}"@
}

proof fn lemma_body(code: int, message: Seq<char>, name: Seq<char>)
    requires
        0 <= code,
    ensures
        encoding::object_text(
            seq![
                (
                    "\"error\""@,
                    encoding::object_text(
                        seq![
                            ("\"code\""@, text::dec(code as nat)),
                            ("\"message\""@, encoding::json_quoted(message)),
                            ("\"status\""@, encoding::json_quoted(name)),
                        ],
                    ),
                ),
            ],
        ) == "{\"error\":{\"code\":"@ + text::dec(code as nat) + ",\"message\":"@
            + encoding::json_quoted(message) + ",\"status\":"@ + encoding::json_quoted(name)
            + "}}"@,
{
    reveal_strlit("\"error\"");
    reveal_strlit("\"code\"");
    reveal_strlit("\"message\"");
    reveal_strlit("\"status\"");
    reveal_strlit("{");
    reveal_strlit("}");
    reveal_strlit(":");
    reveal_strlit(",");
    reveal_strlit("{\"error\":{\"code\":");
    reveal_strlit(",\"message\":");
    reveal_strlit(",\"status\":");
    reveal_strlit("}}");
    let c = text::dec(code as nat);
    let m = encoding::json_quoted(message);
    let n = encoding::json_quoted(name);
    let one: Members = seq![("\"code\""@, c)];
    let two: Members = seq![("\"code\""@, c), ("\"message\""@, m)];
    let three: Members = seq![("\"code\""@, c), ("\"message\""@, m), ("\"status\""@, n)];
    assert(two.drop_last() =~= one);
    assert(three.drop_last() =~= two);
    let t1 = "\"code\""@ + ":"@ + c;
    let t2 = t1 + ","@ + "\"message\""@ + ":"@ + m;
    let t3 = t2 + ","@ + "\"status\""@ + ":"@ + n;
    assert(encoding::members_text(one) == t1);
    assert(encoding::members_text(two) == t2);
    assert(encoding::members_text(three) == t3);
    let inner = encoding::object_text(three);
    assert(inner == "{"@ + t3 + "}"@);
    let outer: Members = seq![("\"error\""@, inner)];
    assert(encoding::members_text(outer) == "\"error\""@ + ":"@ + inner);
    assert(encoding::object_text(outer) =~= "{\"error\":{\"code\":"@ + c + ",\"message\":"@ + m
        + ",\"status\":"@ + n + "}}"@);
}

/// Every kind of error is answered alike by gRPC and by REST: with the code, the HTTP status and the
/// name that stand for it, and with a text that says what is wrong with what. Of an internal error
/// nothing is told but that it is one.
pub proof fn law_errors_are_answered(e: Error, grpc: Status, rest: RestResponse)
    requires
        grpc@ == status::status_of(e@),
        rest.status == rest_error::error_parts(RestErrorView::Domain(e@)).0,
        rest.body@ == rest_error::error_body(RestErrorView::Domain(e@)),
    ensures
        match e {
            Error::NotFound { resource } => is_answered(
                grpc,
                rest,
                Code::NotFound,
                404,
                "NOT_FOUND"@,
                resource@ + " not found"@,
            ),
            Error::AlreadyExists { resource } => is_answered(
                grpc,
                rest,
                Code::AlreadyExists,
                409,
                "ALREADY_EXISTS"@,
                resource@ + " already exists"@,
            ),
            Error::InvalidArgument { field, message } => is_answered(
                grpc,
                rest,
                Code::InvalidArgument,
                400,
                "INVALID_ARGUMENT"@,
                field@ + ": "@ + message@,
            ),
            Error::FailedPrecondition { message } => is_answered(
                grpc,
                rest,
                Code::FailedPrecondition,
                400,
                "FAILED_PRECONDITION"@,
                message@,
            ),
            Error::ResourceExhausted { message } => is_answered(
                grpc,
                rest,
                Code::ResourceExhausted,
                429,
                "RESOURCE_EXHAUSTED"@,
                message@,
            ),
            Error::Unavailable { message } => is_answered(
                grpc,
                rest,
                Code::Unavailable,
                503,
                "UNAVAILABLE"@,
                message@,
            ),
            Error::Unimplemented { method } => is_answered(
                grpc,
                rest,
                Code::Unimplemented,
                501,
                "UNIMPLEMENTED"@,
                method@ + " is not implemented"@,
            ),
            Error::Internal { .. } => is_answered(
                grpc,
                rest,
                Code::Internal,
                500,
                "INTERNAL"@,
                "internal error"@,
            ),
        },
{
    let (code, name, message) = rest_error::error_parts(RestErrorView::Domain(e@));
    lemma_body(code, message, name);
}

/// A method that is not part of the REST API is answered as such.
pub proof fn law_unknown_methods_are_answered(message: Seq<char>, rest: RestResponse)
    requires
        rest.status == rest_error::error_parts(RestErrorView::Unimplemented { message }).0,
        rest.body@ == rest_error::error_body(RestErrorView::Unimplemented { message }),
    ensures
        rest.status == 501,
        rest.body@ == "{\"error\":{\"code\":"@ + text::dec(501) + ",\"message\":"@
            + encoding::json_quoted(message) + ",\"status\":"@ + encoding::json_quoted(
            "UNIMPLEMENTED"@,
        ) + "}}"@,
{
    lemma_body(501, message, "UNIMPLEMENTED"@);
}

/// How an error reads in a log: its kind, and then what it says; of an internal error nothing but the
/// kind.
pub proof fn law_errors_read_well(e: ErrorView)
    ensures
        error::error_text(e) == match e {
            ErrorView::NotFound { resource } => "not found: "@ + resource,
            ErrorView::AlreadyExists { resource } => "already exists: "@ + resource,
            ErrorView::InvalidArgument { field, message } => "invalid argument ("@ + field + "): "@
                + message,
            ErrorView::FailedPrecondition { message } => "failed precondition: "@ + message,
            ErrorView::ResourceExhausted { message } => "resource exhausted: "@ + message,
            ErrorView::Unavailable { message } => "unavailable: "@ + message,
            ErrorView::Unimplemented { method } => "unimplemented: "@ + method,
            ErrorView::Internal { .. } => "internal error"@,
        },
{
}

} // verus!
