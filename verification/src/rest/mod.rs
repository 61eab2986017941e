//! What the REST endpoints do with their requests: a part of the API as HTTP and JSON. Bodies are
//! plain data; the transport encodes and decodes them.

pub mod error;
pub mod handlers;

use crate::rest::error::{RestError, RestErrorView};
use vstd::prelude::*;
use vstd::string::*;

verus! {

/// The answer to every path and method that is not part of this API.
pub fn fallback() -> (r: RestError)
    ensures
        r@ == (RestErrorView::Unimplemented {
            message: "this REST method is not implemented by this server"@,
        }),
{
    RestError::Unimplemented {
        message: String::from_str("this REST method is not implemented by this server"),
    }
}

} // verus!
