//! A minimal persistence layer for todo lists kept in a path-addressed
//! key/value store.
//!
//! The crate derives hierarchical storage paths from numeric identifiers,
//! serializes todo items into a size-prefixed byte encoding, and layers
//! create/save/get operations with existence checks on top of an abstract
//! durable store.

pub mod codec;
pub mod paths;
pub mod storage;
pub mod store;
pub mod todo;
