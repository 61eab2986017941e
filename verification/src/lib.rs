//! The verified core of a Pub/Sub v1 compatible message broker: resource names, limits, message
//! logs, subscription cursors, leases, filters, snapshots, the service that composes them, and what
//! its gRPC, REST and push interfaces decide.

pub mod arith;
pub mod text;
pub mod string_map;
pub mod id_map;
pub mod encoding;
pub mod error;
pub mod clock;
pub mod names;
pub mod limits;
pub mod listing;
pub mod filter;
pub mod store;
pub mod topic;
pub mod topic_index;
pub mod name_index;
pub mod subscription;
pub mod delivery;
pub mod service;
pub mod laws;
pub mod guarantees;
pub mod grpc;
pub mod rest;
pub mod push;
pub mod maintenance;
pub mod metrics;
pub mod config;
pub mod shutdown;
pub mod lifecycle;
