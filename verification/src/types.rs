//! The values that nodes of a Hermes cluster hold and exchange.
use vstd::prelude::*;

verus! {

/// The role a node plays in the cluster.
#[derive(Clone, Copy, Debug, PartialEq, Eq, Structural)]
pub enum NodeRole {
    Leader,
    Follower,
}

/// Whether a node takes part in reads and writes.
#[derive(Clone, Copy, Debug, PartialEq, Eq, Structural)]
pub enum NodeState {
    Active,
    Inactive,
    Suspected,
}

/// A node's identity: the 128-bit value of its UUID, read big-endian, so that
/// the order of identities is the order of the UUIDs' bytes.
#[derive(Clone, Copy, Debug, PartialEq, Eq, Structural, Hash, PartialOrd, Ord)]
pub struct NodeId(pub u128);

/// What a node knows of a cluster member.
#[derive(Debug)]
pub struct NodeInfo {
    pub id: NodeId,
    /// The member's network address, in its text form (`ip:port`).
    pub address: String,
    pub role: NodeRole,
    pub state: NodeState,
}

/// The mathematical value of a [`NodeInfo`].
pub struct NodeInfoView {
    pub id: NodeId,
    pub address: Seq<char>,
    pub role: NodeRole,
    pub state: NodeState,
}

impl View for NodeInfo {
    type V = NodeInfoView;

    open spec fn view(&self) -> NodeInfoView {
        NodeInfoView { id: self.id, address: self.address@, role: self.role, state: self.state }
    }
}

impl Clone for NodeInfo {
    fn clone(&self) -> (copy: Self)
        ensures
            copy@ == self@,
    {
        NodeInfo { id: self.id, address: self.address.clone(), role: self.role, state: self.state }
    }
}

/// The contents of a list of member records.
pub open spec fn infos_view(infos: Seq<NodeInfo>) -> Seq<NodeInfoView> {
    infos.map_values(|n: NodeInfo| n@)
}

/// The messages that nodes exchange.
#[derive(Debug)]
pub enum ClusterMessage {
    // Membership messages
    JoinRequest(NodeInfo),
    JoinResponse(Vec<NodeInfo>),
    HeartBeat,
    HeartBeatAck,
    // Hermes protocol messages
    Invalidation { key: Vec<u8>, version: u64 },
    InvalidationAck { key: Vec<u8>, version: u64 },
    DataUpdate { key: Vec<u8>, value: Vec<u8>, version: u64 },
    Validation { key: Vec<u8>, value: Vec<u8>, version: u64 },
    ValidationAck { key: Vec<u8>, version: u64 },
    ReadRequest { key: Vec<u8> },
    ReadResponse { key: Vec<u8>, value: Vec<u8>, version: u64 },
}

/// The mathematical value of a [`ClusterMessage`].
pub enum MessageView {
    JoinRequest(NodeInfoView),
    JoinResponse(Seq<NodeInfoView>),
    HeartBeat,
    HeartBeatAck,
    Invalidation { key: Seq<u8>, version: u64 },
    InvalidationAck { key: Seq<u8>, version: u64 },
    DataUpdate { key: Seq<u8>, value: Seq<u8>, version: u64 },
    Validation { key: Seq<u8>, value: Seq<u8>, version: u64 },
    ValidationAck { key: Seq<u8>, version: u64 },
    ReadRequest { key: Seq<u8> },
    ReadResponse { key: Seq<u8>, value: Seq<u8>, version: u64 },
}

impl View for ClusterMessage {
    type V = MessageView;

    open spec fn view(&self) -> MessageView {
        match self {
            ClusterMessage::JoinRequest(info) => MessageView::JoinRequest(info@),
            ClusterMessage::JoinResponse(infos) => MessageView::JoinResponse(infos_view(infos@)),
            ClusterMessage::HeartBeat => MessageView::HeartBeat,
            ClusterMessage::HeartBeatAck => MessageView::HeartBeatAck,
            ClusterMessage::Invalidation { key, version } => MessageView::Invalidation {
                key: key@,
                version: *version,
            },
            ClusterMessage::InvalidationAck { key, version } => MessageView::InvalidationAck {
                key: key@,
                version: *version,
            },
            ClusterMessage::DataUpdate { key, value, version } => MessageView::DataUpdate {
                key: key@,
                value: value@,
                version: *version,
            },
            ClusterMessage::Validation { key, value, version } => MessageView::Validation {
                key: key@,
                value: value@,
                version: *version,
            },
            ClusterMessage::ValidationAck { key, version } => MessageView::ValidationAck {
                key: key@,
                version: *version,
            },
            ClusterMessage::ReadRequest { key } => MessageView::ReadRequest { key: key@ },
            ClusterMessage::ReadResponse { key, value, version } => MessageView::ReadResponse {
                key: key@,
                value: value@,
                version: *version,
            },
        }
    }
}

/// Why a read or a write did not complete.
#[derive(Debug)]
pub enum HermesError {
    /// This node is not the coordinator of the key (or not a replica).
    NotResponsible,
    /// No active node can serve the request.
    NoActiveReplicas,
    /// A peer could not be reached.
    NetworkError(String),
    /// Some replicas did not acknowledge a write.
    QuorumFailed(String),
    /// No replica holds the key.
    ValueNotFound(Vec<u8>),
}

/// The mathematical value of a [`HermesError`].
pub enum ErrorView {
    NotResponsible,
    NoActiveReplicas,
    NetworkError(Seq<char>),
    QuorumFailed(Seq<char>),
    ValueNotFound(Seq<u8>),
}

impl View for HermesError {
    type V = ErrorView;

    open spec fn view(&self) -> ErrorView {
        match self {
            HermesError::NotResponsible => ErrorView::NotResponsible,
            HermesError::NoActiveReplicas => ErrorView::NoActiveReplicas,
            HermesError::NetworkError(m) => ErrorView::NetworkError(m@),
            HermesError::QuorumFailed(m) => ErrorView::QuorumFailed(m@),
            HermesError::ValueNotFound(k) => ErrorView::ValueNotFound(k@),
        }
    }
}

} // verus!
