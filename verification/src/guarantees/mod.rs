//! What clients can rely on: what comes back of what they send, told in the fields of their requests
//! and replies.

pub mod bounds;
pub mod calendar;
pub mod configuration;
pub mod dead_letters;
pub mod delivery;
pub mod effects;
pub mod errors;
pub mod lists;
pub mod numerals;
pub mod push;
pub mod rest;
pub mod retention;
pub mod snapshots;
pub mod streams;
pub mod subscriptions;
pub mod sweeps;
pub mod topics;
pub mod transit;
