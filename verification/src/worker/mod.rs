//! What a worker does when the cluster speaks to it.

pub mod cluster_laws;
pub mod cluster_state;
pub mod domain;
pub mod partitions;
pub mod snapshot_guarantees;
pub mod state;
pub mod sync_laws;
pub mod transfer_guarantees;
