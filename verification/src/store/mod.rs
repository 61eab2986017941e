//! The persistence layer: key encodings, stored records and the key/value store they live in.

pub mod codec;
pub mod format;
pub mod keys;
pub mod kv;
