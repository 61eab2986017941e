//! Delivery of messages to subscriptions: leases, streams, retries, dead-lettering, retention and
//! snapshots.

pub mod cursor;
pub mod dead_letter;
pub mod engine;
pub mod laws;
pub mod lease;
pub mod retention;
pub mod retry;
pub mod snapshot;
pub mod stream;
