//! The decision logic of a distributed, in-memory key-value store: the record store of a
//! worker node, the rules by which workers and managers react to cluster events, and the
//! routing, retry and replication rules of a topology-aware client.
//!
//! Everything here is synchronous and free of I/O. Sockets, timers and tasks live in the
//! surrounding application, which hands plain values in and carries out the answers.

pub mod client;
pub mod clock;
pub mod common;
pub mod hashed;
pub mod manager;
pub mod mutation;
pub mod ordered;
pub mod partition_cache;
pub mod partition_store;
pub mod runtime_store;
pub mod skip_maps;
pub mod store_guarantees;
pub mod store_laws;
pub mod view_guarantees;
pub mod worker;
