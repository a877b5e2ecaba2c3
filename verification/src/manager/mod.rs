//! What a manager does to know who is alive.

pub mod domain;
pub mod guarantees;
pub mod heartbeat;
