//! What the gRPC services do with their requests. Requests and replies are plain data; the
//! transport encodes and decodes them.

pub mod convert;
pub mod iam;
pub mod messages;
pub mod publisher;
pub mod schema;
pub mod status;
pub mod streaming;
pub mod subscriber;
