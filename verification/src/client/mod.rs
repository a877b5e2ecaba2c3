//! The topology-aware client: where a key lives, whom to ask, and what to make of the answers.

pub mod config;
pub mod endpoint;
pub mod error;
pub mod guarantees;
pub mod keys;
pub mod laws;
pub mod managers;
pub mod names;
pub mod operations;
pub mod own_writes;
pub mod pending;
pub mod retry;
pub mod text;
pub mod topology;
pub mod upkeep_guarantees;
pub mod wire;
