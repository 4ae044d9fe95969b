//! Hermes replication: membership, versioned key-value copies and the
//! decisions of the Hermes read and write protocols, with their contracts.
//!
//! A node keeps a table of the cluster's members, ordered by identity, and a
//! copy of each key with the version it was written at. Each key has one
//! coordinator among the active members; only it writes the key, issuing a
//! version made of its identity and a counter, and replicates the value to
//! the other active members. Reads are served from a valid local copy, or
//! fetched from the other replicas. The network transport is not part of this
//! crate: it carries the messages and hands the replies to the decisions here.
pub mod ids;
pub mod laws;
pub mod membership;
pub mod protocol;
pub mod store;
pub mod types;
pub mod version;

pub use protocol::ClusterNode;
pub use types::{ClusterMessage, HermesError, NodeId, NodeInfo, NodeRole, NodeState};
