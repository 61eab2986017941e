//! Push delivery: what is sent to an endpoint, what its answer means, and which subscriptions have
//! a dispatcher.

pub mod dispatcher;
pub mod envelope;
pub mod manager;
