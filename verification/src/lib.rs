//! Core of a peer-to-peer, end-to-end encrypted group chat data plane.
//!
//! The library keeps a local relational store whose state evolves by a
//! closed family of CRDT patches, and replicates that state across
//! authenticated point-to-point channels until any two replicas converge.

pub mod channel;
pub mod crdt;
pub mod frame;
pub mod hub;
pub mod laws;
pub mod patch;
pub mod pipe_sync;
pub mod store;
pub mod sync;
pub mod util;
pub mod uuid;
pub mod wire;

pub use crdt::Author;
