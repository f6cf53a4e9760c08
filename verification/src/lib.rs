//! Hashes, lists and sets stored as families of keys in a flat, ordered,
//! transactional key-value store.
//!
//! The library holds the decisions of that mapping and proves them: how a
//! collection is laid out in storage keys, how its metadata record evolves,
//! which reads and writes each command needs, and when a transaction is
//! committed or retried. Talking to a remote store is left to the caller, who
//! feeds what it read back into the state machines defined here.

pub mod octets;
pub mod keys;
pub mod frame;
pub mod meta;
pub mod store;
pub mod command;
pub mod execution;
pub mod model;
pub mod laws;
pub mod txn;
pub mod text;
pub mod buffer;
pub mod parse;
pub mod cmd;
