//! The schema registry, which this server does not have.

use crate::grpc::status::{Code, Status, StatusView};
use vstd::prelude::*;

verus! {

/// `google.pubsub.v1.SchemaService`: every method is unimplemented.
#[derive(Debug, Default)]
pub struct SchemaServiceImpl;

impl SchemaServiceImpl {
    /// What every method answers.
    pub fn unimplemented(&self) -> (r: Status)
        ensures
            r@ == (StatusView {
                code: Code::Unimplemented,
                message: "SchemaService is out of scope for this server"@,
            }),
    {
        Status::unimplemented("SchemaService is out of scope for this server")
    }
}

} // verus!
