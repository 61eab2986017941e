//! Access control, which this server does not have.

use crate::grpc::status::{Code, Status, StatusView};
use vstd::prelude::*;

verus! {

/// `google.iam.v1.IAMPolicy`: every method is unimplemented.
#[derive(Debug, Default)]
pub struct IamPolicyImpl;

impl IamPolicyImpl {
    /// What every method answers.
    pub fn unimplemented(&self) -> (r: Status)
        ensures
            r@ == (StatusView {
                code: Code::Unimplemented,
                message: "IAMPolicy is out of scope for this server"@,
            }),
    {
        Status::unimplemented("IAMPolicy is out of scope for this server")
    }
}

} // verus!
