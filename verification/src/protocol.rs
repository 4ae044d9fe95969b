//! A Hermes cluster node: its member table and local copies, how it answers
//! the messages of other nodes, and the decisions of its reads and writes.
use crate::ids::{is_random_uuid, uuid_string, uuid_text};
use crate::membership::{
    active_ids, coordinator, lookup, peers, sorted_by_id, upsert, upsert_all, with_state,
    Membership,
};
use crate::store::{
    copy_bytes, invalidated, invalidation_settled, validated, DataStore, PendingInvalidations,
};
use crate::types::{
    infos_view, ClusterMessage, ErrorView, HermesError, MessageView, NodeId, NodeInfo,
    NodeInfoView, NodeRole, NodeState,
};
use crate::version::{compose_version, version_of};
use vstd::prelude::*;
use vstd::string::*;

verus! {

/// A node of a Hermes cluster.
pub struct ClusterNode {
    /// The node's own record.
    pub info: NodeInfo,
    /// The known cluster members.
    members: Membership,
    /// The local copies: for each key its value and version.
    data: DataStore,
    /// The invalidations that wait for acknowledgements.
    pending_invalidations: PendingInvalidations,
    /// The counter from which versions are issued.
    version_counter: u64,
}

/// The mathematical value of a [`ClusterNode`].
pub struct NodeView {
    pub info: NodeInfoView,
    pub members: Seq<NodeInfoView>,
    pub data: Map<Seq<u8>, (Seq<u8>, u64)>,
    pub pending: Seq<(Seq<u8>, Seq<NodeId>)>,
    pub counter: u64,
}

impl View for ClusterNode {
    type V = NodeView;

    closed spec fn view(&self) -> NodeView {
        NodeView {
            info: self.info@,
            members: self.members@,
            data: self.data@,
            pending: self.pending_invalidations@,
            counter: self.version_counter,
        }
    }
}

/// The state of a node just created with identity `id` at `address`: it
/// knows itself as its only, active member and holds no copies.
pub open spec fn initial_node(id: NodeId, address: Seq<char>) -> NodeView {
    let info = NodeInfoView {
        id,
        address,
        role: NodeRole::Follower,
        state: NodeState::Active,
    };
    NodeView {
        info,
        members: seq![info],
        data: Map::empty(),
        pending: Seq::empty(),
        counter: 0,
    }
}

/// A message, or none, by its mathematical value.
pub open spec fn reply_view(r: Option<ClusterMessage>) -> Option<MessageView> {
    match r {
        Some(m) => Some(m@),
        None => None,
    }
}

/// What a node answers to a message.
pub open spec fn response_to(pre: NodeView, m: MessageView) -> Option<MessageView> {
    match m {
        MessageView::JoinRequest(info) => Some(MessageView::JoinResponse(upsert(pre.members, info))),
        MessageView::Invalidation { key, version } => Some(
            MessageView::InvalidationAck { key, version },
        ),
        MessageView::Validation { key, value, version } => Some(
            MessageView::ValidationAck { key, version },
        ),
        MessageView::HeartBeat => Some(MessageView::HeartBeatAck),
        MessageView::ReadRequest { key } => if pre.data.contains_key(key) {
            Some(
                MessageView::ReadResponse {
                    key,
                    value: pre.data[key].0,
                    version: pre.data[key].1,
                },
            )
        } else {
            None
        },
        _ => None,
    }
}

/// The state of a node after it handles a message.
pub open spec fn state_after(pre: NodeView, m: MessageView) -> NodeView {
    match m {
        MessageView::JoinRequest(info) => NodeView { members: upsert(pre.members, info), ..pre },
        MessageView::JoinResponse(infos) => NodeView {
            members: upsert_all(pre.members, infos),
            ..pre
        },
        MessageView::Invalidation { key, version } => NodeView {
            data: invalidated(pre.data, key),
            ..pre
        },
        MessageView::Validation { key, value, version } => NodeView {
            data: validated(pre.data, key, value, version),
            ..pre
        },
        _ => pre,
    }
}

/// The text by which a failed write names a node: `NodeId(` and the UUID.
pub open spec fn node_id_text(id: NodeId) -> Seq<char> {
    "NodeId("@ + uuid_text(id.0) + ")"@
}

/// The names of nodes, separated by `, `.
pub open spec fn node_list_text(ids: Seq<NodeId>) -> Seq<char>
    decreases ids.len(),
{
    if ids.len() == 0 {
        Seq::empty()
    } else if ids.len() == 1 {
        node_id_text(ids[0])
    } else {
        node_list_text(ids.drop_last()) + ", "@ + node_id_text(ids.last())
    }
}

/// The message of a write that some replicas did not acknowledge.
pub open spec fn quorum_failure_text(ids: Seq<NodeId>) -> Seq<char> {
    "Failed to validate with nodes: ["@ + node_list_text(ids) + "]"@
}

/// Writes the message of a write that the replicas `ids` did not
/// acknowledge.
pub fn quorum_failure_message(ids: &Vec<NodeId>) -> (text: String)
    ensures
        text@ == quorum_failure_text(ids@),
{
    let mut list = String::new();
    let mut i: usize = 0;
    while i < ids.len()
        invariant
            i <= ids@.len(),
            list@ == node_list_text(ids@.take(i as int)),
        decreases ids.len() - i,
    {
        let ghost before = list@;
        if i > 0 {
            list.append(", ");
        }
        list.append("NodeId(");
        let id_text = uuid_string(ids[i].0);
        list.append(id_text.as_str());
        list.append(")");
        assert(ids@.take(i + 1).drop_last() =~= ids@.take(i as int));
        if i == 0 {
            assert(before =~= Seq::<char>::empty());
            assert(list@ =~= node_id_text(ids@[0]));
        } else {
            assert(list@ =~= before + ", "@ + node_id_text(ids@[i as int]));
        }
        i = i + 1;
    }
    assert(ids@.take(ids.len() as int) =~= ids@);
    let mut text = String::from_str("Failed to validate with nodes: [");
    text.append(list.as_str());
    text.append("]");
    text
}

/// The mathematical value of a [`WriteRound`].
pub struct WriteRoundView {
    pub key: Seq<u8>,
    pub value: Seq<u8>,
    pub version: u64,
    pub targets: Seq<NodeInfoView>,
    pub failed: Seq<NodeId>,
}

/// A write in progress at its coordinator: the value to replicate, the
/// version it was given, the replicas to reach and those that failed.
pub struct WriteRound {
    pub key: Vec<u8>,
    pub value: Vec<u8>,
    pub version: u64,
    pub targets: Vec<NodeInfo>,
    pub failed: Vec<NodeId>,
}

impl View for WriteRound {
    type V = WriteRoundView;

    open spec fn view(&self) -> WriteRoundView {
        WriteRoundView {
            key: self.key@,
            value: self.value@,
            version: self.version,
            targets: infos_view(self.targets@),
            failed: self.failed@,
        }
    }
}

/// A reply acknowledges a validation at `version`.
pub open spec fn acknowledges(reply: Option<MessageView>, version: u64) -> bool {
    match reply {
        Some(MessageView::ValidationAck { key, version: v }) => v == version,
        _ => false,
    }
}

/// A round after the reply of the replica `id`: anything but an
/// acknowledgement of the round's version counts the replica as failed.
pub open spec fn reply_step(round: WriteRoundView, id: NodeId, reply: Option<MessageView>) -> WriteRoundView {
    if acknowledges(reply, round.version) {
        round
    } else {
        WriteRoundView { failed: round.failed.push(id), ..round }
    }
}

/// A round after the replies of several replicas, in order.
pub open spec fn after_replies(
    round: WriteRoundView,
    replies: Seq<(NodeId, Option<MessageView>)>,
) -> WriteRoundView
    decreases replies.len(),
{
    if replies.len() == 0 {
        round
    } else {
        let last = replies.last();
        reply_step(after_replies(round, replies.drop_last()), last.0, last.1)
    }
}

impl WriteRound {
    /// The message that carries the write to a replica.
    pub fn validation_message(&self) -> (m: ClusterMessage)
        ensures
            m@ == (MessageView::Validation {
                key: self.key@,
                value: self.value@,
                version: self.version,
            }),
    {
        ClusterMessage::Validation {
            key: copy_bytes(self.key.as_slice()),
            value: copy_bytes(self.value.as_slice()),
            version: self.version,
        }
    }

    /// Records that the replica `id` could not be reached.
    pub fn record_unreachable(&mut self, id: NodeId)
        ensures
            final(self)@ == (WriteRoundView { failed: old(self)@.failed.push(id), ..old(self)@ }),
    {
        self.failed.push(id);
    }

    /// Records the reply of the replica `id` to the validation (none where
    /// sending or receiving failed): anything but an acknowledgement of this
    /// round's version counts the replica as failed.
    pub fn record_reply(&mut self, id: NodeId, reply: &Option<ClusterMessage>)
        ensures
            final(self)@ == reply_step(old(self)@, id, reply_view(*reply)),
    {
        let acked = match reply {
            Some(ClusterMessage::ValidationAck { key: _, version }) => *version == self.version,
            _ => false,
        };
        if !acked {
            self.failed.push(id);
        }
    }
}

/// The mathematical value of a [`ReadAction`].
pub enum ReadActionView {
    Ask { peer: NodeInfoView, request: MessageView },
    Finished(Result<Seq<u8>, ErrorView>),
}

/// What a read asks of the transport next.
pub enum ReadAction {
    /// Send `request` to `peer` and hand its reply to
    /// [`ClusterNode::continue_read`].
    Ask { peer: NodeInfo, request: ClusterMessage },
    /// The read is over, with this outcome.
    Finished(Result<Vec<u8>, HermesError>),
}

/// An outcome by its mathematical value.
pub open spec fn outcome_view(r: Result<Vec<u8>, HermesError>) -> Result<Seq<u8>, ErrorView> {
    match r {
        Ok(v) => Ok(v@),
        Err(e) => Err(e@),
    }
}

impl View for ReadAction {
    type V = ReadActionView;

    open spec fn view(&self) -> ReadActionView {
        match self {
            ReadAction::Ask { peer, request } => ReadActionView::Ask {
                peer: peer@,
                request: request@,
            },
            ReadAction::Finished(r) => ReadActionView::Finished(outcome_view(*r)),
        }
    }
}

/// The mathematical value of a [`ReadRound`].
pub struct ReadRoundView {
    pub key: Seq<u8>,
    pub peers: Seq<NodeInfoView>,
    pub next: int,
}

/// A read that fetches a key from other replicas, one after the other.
pub struct ReadRound {
    pub key: Vec<u8>,
    /// The replicas to ask, in order.
    pub peers: Vec<NodeInfo>,
    /// How many of them were asked.
    pub next: usize,
}

impl View for ReadRound {
    type V = ReadRoundView;

    open spec fn view(&self) -> ReadRoundView {
        ReadRoundView { key: self.key@, peers: infos_view(self.peers@), next: self.next as int }
    }
}

/// The next step of a read round: ask the next replica, or, when all were
/// asked, report that no replica holds the key.
pub open spec fn next_request(round: ReadRoundView) -> ReadActionView {
    if round.next < round.peers.len() {
        ReadActionView::Ask {
            peer: round.peers[round.next],
            request: MessageView::ReadRequest { key: round.key },
        }
    } else {
        ReadActionView::Finished(Err(ErrorView::ValueNotFound(round.key)))
    }
}

/// The round after its next step.
pub open spec fn advanced(round: ReadRoundView) -> ReadRoundView {
    if round.next < round.peers.len() {
        ReadRoundView { next: round.next + 1, ..round }
    } else {
        round
    }
}

/// The node's own record in its member table is not active.
pub open spec fn own_record_inactive(pre: NodeView) -> bool {
    match lookup(pre.members, pre.info.id) {
        Some(m) => m.state != NodeState::Active,
        None => false,
    }
}

/// Why a node refuses to read: its own record is not active or no member is
/// active (no active replica), or the node itself is not an active member.
pub open spec fn read_refusal(pre: NodeView) -> Option<ErrorView> {
    let act = active_ids(pre.members);
    if own_record_inactive(pre) {
        Some(ErrorView::NoActiveReplicas)
    } else if act.len() == 0 {
        Some(ErrorView::NoActiveReplicas)
    } else if !act.contains(pre.info.id) {
        Some(ErrorView::NotResponsible)
    } else {
        None
    }
}

/// The valid local value of a key: a copy whose value was not cleared by an
/// invalidation.
pub open spec fn local_value(pre: NodeView, key: Seq<u8>) -> Option<Seq<u8>> {
    if pre.data.contains_key(key) && pre.data[key].0.len() > 0 {
        Some(pre.data[key].0)
    } else {
        None
    }
}

/// The round a read starts when it must fetch the key from other replicas.
pub open spec fn fetch_round(pre: NodeView, key: Seq<u8>) -> ReadRoundView {
    ReadRoundView { key, peers: peers(pre.members, pre.info.id), next: 0 }
}

/// The first step of a read: refuse, answer from the local copy, or ask the
/// first other active replica.
pub open spec fn read_start(pre: NodeView, key: Seq<u8>) -> ReadActionView {
    match read_refusal(pre) {
        Some(e) => ReadActionView::Finished(Err(e)),
        None => match local_value(pre, key) {
            Some(v) => ReadActionView::Finished(Ok(v)),
            None => next_request(fetch_round(pre, key)),
        },
    }
}

/// Why a node refuses to coordinate a write of `key`: it is recorded as a
/// member that is not active, no member is active, or the key's coordinator
/// is another node.
pub open spec fn write_refusal(pre: NodeView, key: Seq<u8>) -> Option<ErrorView> {
    if own_record_inactive(pre) {
        Some(ErrorView::NoActiveReplicas)
    } else {
        match coordinator(pre.members, key) {
            None => Some(ErrorView::NoActiveReplicas),
            Some(c) => if c != pre.info.id {
                Some(ErrorView::NotResponsible)
            } else {
                None
            },
        }
    }
}

/// The round that a write admitted at `pre` starts.
pub open spec fn write_round_for(pre: NodeView, key: Seq<u8>, value: Seq<u8>) -> WriteRoundView {
    WriteRoundView {
        key,
        value,
        version: version_of(pre.info.id, pre.counter),
        targets: peers(pre.members, pre.info.id),
        failed: Seq::empty(),
    }
}

/// The node after it issued a version.
pub open spec fn after_version(pre: NodeView) -> NodeView {
    NodeView { counter: pre.counter.wrapping_add(1), ..pre }
}

/// The node after it finished a write round. Only when every replica
/// acknowledged the round does its own copy take the value, and then as a
/// validation does: unless the copy already holds a version that is not lower.
pub open spec fn after_write(pre: NodeView, round: WriteRoundView) -> NodeView {
    if round.failed.len() == 0 {
        NodeView { data: validated(pre.data, round.key, round.value, round.version), ..pre }
    } else {
        pre
    }
}

/// The outcome of a finished write round.
pub open spec fn write_outcome(round: WriteRoundView) -> Result<(), ErrorView> {
    if round.failed.len() == 0 {
        Ok(())
    } else {
        Err(ErrorView::QuorumFailed(quorum_failure_text(round.failed)))
    }
}

impl ClusterNode {
    /// The member table is in order of identity and no key has two copies.
    pub closed spec fn well_formed(&self) -> bool {
        &&& self.members.well_formed()
        &&& self.data.well_formed()
    }

    /// A node with identity `id` at `address`, which knows itself as its only,
    /// active member.
    pub fn with_id(id: NodeId, address: String) -> (node: ClusterNode)
        ensures
            node.well_formed(),
            node@ == initial_node(id, address@),
    {
        let info = NodeInfo { id, address, role: NodeRole::Follower, state: NodeState::Active };
        let own = info.clone();
        ClusterNode {
            info,
            members: Membership::single(own),
            data: DataStore::new(),
            pending_invalidations: PendingInvalidations::new(),
            version_counter: 0,
        }
    }

    /// A node at `address` with a fresh random identity.
    pub fn new(address: String) -> (node: ClusterNode)
        ensures
            node.well_formed(),
            node@ == initial_node(node@.info.id, address@),
            is_random_uuid(node@.info.id.0),
    {
        ClusterNode::with_id(NodeId::new(), address)
    }

    /// A well-formed node's member table is in order of identity, so that the
    /// laws about member tables apply to it.
    pub proof fn lemma_members_sorted(&self)
        requires
            self.well_formed(),
        ensures
            sorted_by_id(self@.members),
    {
    }

    /// The node's own record.
    pub fn own_record(&self) -> (r: NodeInfo)
        ensures
            r@ == self@.info,
    {
        self.info.clone()
    }

    /// The number of known members.
    pub fn member_count(&self) -> (n: usize)
        ensures
            n == self@.members.len(),
    {
        self.members.len()
    }

    /// The record of the member `id`, if it is known.
    pub fn member(&self, id: NodeId) -> (m: Option<NodeInfo>)
        requires
            self.well_formed(),
        ensures
            match m {
                Some(info) => lookup(self@.members, id) == Some(info@),
                None => lookup(self@.members, id) is None,
            },
    {
        self.members.get(id)
    }

    /// Every known member, in order of identity.
    pub fn members(&self) -> (all: Vec<NodeInfo>)
        ensures
            infos_view(all@) == self@.members,
    {
        self.members.to_vec()
    }

    /// Answers a message from `from`, and updates the node as the message asks.
    pub fn handle_message(&mut self, from: NodeId, message: ClusterMessage) -> (reply: Option<
        ClusterMessage,
    >)
        requires
            old(self).well_formed(),
        ensures
            final(self).well_formed(),
            final(self)@ == state_after(old(self)@, message@),
            reply_view(reply) == response_to(old(self)@, message@),
    {
        match message {
            ClusterMessage::JoinRequest(node_info) => self.handle_join_request(node_info),
            ClusterMessage::Invalidation { .. } => self.handle_invalidation(from, message),
            ClusterMessage::Validation { .. } => self.handle_validation(message),
            ClusterMessage::HeartBeat => Some(ClusterMessage::HeartBeatAck),
            ClusterMessage::ReadRequest { key } => {
                match self.data.get(key.as_slice()) {
                    Some((value, version)) => Some(
                        ClusterMessage::ReadResponse { key, value, version },
                    ),
                    None => None,
                }
            },
            ClusterMessage::JoinResponse(members) => {
                self.members.insert_all(members);
                None
            },
            _ => None,
        }
    }

    /// Adds the joining node to the member table and answers with every
    /// known member.
    fn handle_join_request(&mut self, node_info: NodeInfo) -> (reply: Option<ClusterMessage>)
        requires
            old(self).well_formed(),
        ensures
            final(self).well_formed(),
            final(self)@ == (NodeView {
                members: upsert(old(self)@.members, node_info@),
                ..old(self)@
            }),
            reply_view(reply) == Some(
                MessageView::JoinResponse(upsert(old(self)@.members, node_info@)),
            ),
    {
        self.members.insert(node_info);
        let members = self.members.to_vec();
        Some(ClusterMessage::JoinResponse(members))
    }

    /// Clears the local value of an invalidated key and acknowledges the
    /// invalidation; any other message is left unanswered.
    fn handle_invalidation(&mut self, _from: NodeId, message: ClusterMessage) -> (reply: Option<
        ClusterMessage,
    >)
        requires
            old(self).well_formed(),
        ensures
            final(self).well_formed(),
            match message@ {
                MessageView::Invalidation { key, version } => {
                    &&& final(self)@ == (NodeView {
                        data: invalidated(old(self)@.data, key),
                        ..old(self)@
                    })
                    &&& reply_view(reply) == Some(MessageView::InvalidationAck { key, version })
                },
                _ => final(self)@ == old(self)@ && reply is None,
            },
    {
        match message {
            ClusterMessage::Invalidation { key, version } => {
                self.data.invalidate(key.as_slice());
                Some(ClusterMessage::InvalidationAck { key, version })
            },
            _ => None,
        }
    }

    /// Takes a validated value unless the local copy already has a version
    /// that is not lower, and acknowledges the validation either way; any
    /// other message is left unanswered.
    fn handle_validation(&mut self, message: ClusterMessage) -> (reply: Option<ClusterMessage>)
        requires
            old(self).well_formed(),
        ensures
            final(self).well_formed(),
            match message@ {
                MessageView::Validation { key, value, version } => {
                    &&& final(self)@ == (NodeView {
                        data: validated(old(self)@.data, key, value, version),
                        ..old(self)@
                    })
                    &&& reply_view(reply) == Some(MessageView::ValidationAck { key, version })
                },
                _ => final(self)@ == old(self)@ && reply is None,
            },
    {
        match message {
            ClusterMessage::Validation { key, value, version } => {
                let ack_key = copy_bytes(key.as_slice());
                self.data.validate(key, value, version);
                Some(ClusterMessage::ValidationAck { key: ack_key, version })
            },
            _ => None,
        }
    }

    /// Issues the next version: the node's identity above its counter, which
    /// then moves on by one (wrapping).
    pub fn get_next_version(&mut self, _key: &[u8]) -> (version: u64)
        requires
            old(self).well_formed(),
        ensures
            final(self).well_formed(),
            version == version_of(old(self)@.info.id, old(self)@.counter),
            final(self)@ == after_version(old(self)@),
    {
        let counter = self.version_counter;
        self.version_counter = counter.wrapping_add(1);
        compose_version(self.info.id, counter)
    }

    /// Whether every node acknowledged the invalidation of `key`.
    pub fn is_invalidation_complete(&self, key: &[u8]) -> (done: bool)
        ensures
            done == invalidation_settled(self@.pending, key@),
    {
        self.pending_invalidations.is_settled(key)
    }

    /// The replicas of a key: every active member, in order of identity.
    pub fn get_replica_nodes(&self, _key: &[u8]) -> (replicas: Vec<NodeId>)
        ensures
            replicas@ == active_ids(self@.members),
    {
        self.members.active_ids()
    }

    /// The coordinator of `key` among the members this node knows.
    pub fn coordinator_for(&self, key: &[u8]) -> (c: Option<NodeId>)
        ensures
            c == coordinator(self@.members, key@),
    {
        self.members.coordinator(key)
    }

    /// Sets the state of the node's own record in the member table, if the
    /// table holds it.
    pub fn set_state(&mut self, state: NodeState)
        requires
            old(self).well_formed(),
        ensures
            final(self).well_formed(),
            final(self)@ == (NodeView {
                members: with_state(old(self)@.members, old(self)@.info.id, state),
                ..old(self)@
            }),
    {
        let id = self.info.id;
        self.members.set_state(id, state);
    }

    /// The version of the local copy of `key`, if there is one.
    pub fn get_version(&self, key: &[u8]) -> (version: Option<u64>)
        requires
            self.well_formed(),
        ensures
            match version {
                Some(v) => self@.data.contains_key(key@) && self@.data[key@].1 == v,
                None => !self@.data.contains_key(key@),
            },
    {
        self.data.version(key)
    }

    /// The value and version of the local copy of `key`, if there is one.
    pub fn get_value_and_version(&self, key: &[u8]) -> (copy: Option<(Vec<u8>, u64)>)
        requires
            self.well_formed(),
        ensures
            match copy {
                Some(c) => self@.data.contains_key(key@) && self@.data[key@] == (c.0@, c.1),
                None => !self@.data.contains_key(key@),
            },
    {
        self.data.get(key)
    }

    /// Makes `value` at `version` the local copy of `key`.
    pub fn store(&mut self, key: Vec<u8>, value: Vec<u8>, version: u64)
        requires
            old(self).well_formed(),
        ensures
            final(self).well_formed(),
            final(self)@ == (NodeView {
                data: old(self)@.data.insert(key@, (value@, version)),
                ..old(self)@
            }),
    {
        self.data.insert(key, value, version);
    }

    /// Starts a write of `value` under `key` with this node as coordinator:
    /// refuses when the node is recorded as inactive, when no member is
    /// active, or when another node coordinates the key; otherwise issues the
    /// write's version and names the other active members to replicate to.
    pub fn begin_write(&mut self, key: Vec<u8>, value: Vec<u8>) -> (r: Result<WriteRound, HermesError>)
        requires
            old(self).well_formed(),
        ensures
            final(self).well_formed(),
            match r {
                Err(e) => {
                    &&& write_refusal(old(self)@, key@) == Some(e@)
                    &&& final(self)@ == old(self)@
                },
                Ok(round) => {
                    &&& write_refusal(old(self)@, key@) is None
                    &&& round@ == write_round_for(old(self)@, key@, value@)
                    &&& final(self)@ == after_version(old(self)@)
                },
            },
    {
        let me = self.info.id;
        match self.members.get(me) {
            Some(own) => {
                if own.state != NodeState::Active {
                    return Err(HermesError::NoActiveReplicas);
                }
            },
            None => {},
        }
        let coordinator_id = match self.members.coordinator(key.as_slice()) {
            Some(c) => c,
            None => {
                return Err(HermesError::NoActiveReplicas);
            },
        };
        if coordinator_id != me {
            return Err(HermesError::NotResponsible);
        }
        let version = self.get_next_version(key.as_slice());
        let targets = self.members.peers(me);
        Ok(WriteRound { key, value, version, targets, failed: Vec::new() })
    }

    /// Finishes a write round. If any replica did not acknowledge it, the write
    /// fails and the local copy stays as it was; otherwise the local copy takes
    /// the round's value at its version, unless it already holds a version
    /// that is not lower.
    pub fn finish_write(&mut self, round: WriteRound) -> (r: Result<(), HermesError>)
        requires
            old(self).well_formed(),
        ensures
            final(self).well_formed(),
            final(self)@ == after_write(old(self)@, round@),
            match r {
                Ok(()) => write_outcome(round@) == Ok::<(), ErrorView>(()),
                Err(e) => write_outcome(round@) == Err::<(), ErrorView>(e@),
            },
    {
        let WriteRound { key, value, version, targets: _, failed } = round;
        if failed.len() > 0 {
            Err(HermesError::QuorumFailed(quorum_failure_message(&failed)))
        } else {
            self.data.validate(key, value, version);
            Ok(())
        }
    }

    /// Starts a read of `key`: refuses when this node's own record is not
    /// active or no member is active, or when this node is not an active
    /// member; answers from a valid local copy; otherwise
    /// asks the other active members, one after the other.
    pub fn begin_read(&self, key: Vec<u8>) -> (r: (ReadRound, ReadAction))
        requires
            self.well_formed(),
        ensures
            r.1@ == read_start(self@, key@),
            read_refusal(self@) is None && local_value(self@, key@) is None ==> r.0@ == advanced(
                fetch_round(self@, key@),
            ),
    {
        let me = self.info.id;
        let own_inactive = match self.members.get(me) {
            Some(own) => own.state != NodeState::Active,
            None => false,
        };
        let active = self.members.active_ids();
        let refusal = if own_inactive {
            Some(HermesError::NoActiveReplicas)
        } else if active.len() == 0 {
            Some(HermesError::NoActiveReplicas)
        } else if !contains_id(&active, me) {
            Some(HermesError::NotResponsible)
        } else {
            None
        };
        let empty_round = ReadRound { key: copy_bytes(key.as_slice()), peers: Vec::new(), next: 0 };
        match refusal {
            Some(e) => {
                return (empty_round, ReadAction::Finished(Err(e)));
            },
            None => {},
        }
        match self.data.get(key.as_slice()) {
            Some((value, _)) => {
                if value.len() > 0 {
                    return (empty_round, ReadAction::Finished(Ok(value)));
                }
            },
            None => {},
        }
        let mut round = ReadRound { key, peers: self.members.peers(me), next: 0 };
        let action = next_step(&mut round);
        (round, action)
    }

    /// Takes what the transport reports of the replica it was asked to
    /// contact. A replica that cannot be reached ends the read with a network
    /// error naming the reason. A read response gives the local copy its
    /// value and version and ends the read with that value. Anything else (no
    /// reply, or another message) moves on to the next replica.
    pub fn continue_read(&mut self, round: &mut ReadRound, event: ReadEvent) -> (action: ReadAction)
        requires
            old(self).well_formed(),
        ensures
            final(self).well_formed(),
            match event {
                ReadEvent::Unreachable(reason) => {
                    &&& final(self)@ == old(self)@
                    &&& action@ == ReadActionView::Finished(Err(ErrorView::NetworkError(reason@)))
                    &&& final(round)@ == old(round)@
                },
                ReadEvent::Replied(reply) => match reply_view(reply) {
                    Some(MessageView::ReadResponse { key: _, value, version }) => {
                        &&& final(self)@ == (NodeView {
                            data: old(self)@.data.insert(old(round)@.key, (value, version)),
                            ..old(self)@
                        })
                        &&& action@ == ReadActionView::Finished(Ok(value))
                        &&& final(round)@ == old(round)@
                    },
                    _ => {
                        &&& final(self)@ == old(self)@
                        &&& action@ == next_request(old(round)@)
                        &&& final(round)@ == advanced(old(round)@)
                    },
                },
            },
    {
        match event {
            ReadEvent::Unreachable(reason) => round.peer_unreachable(reason),
            ReadEvent::Replied(Some(ClusterMessage::ReadResponse { key: _, value, version })) => {
                let key = copy_bytes(round.key.as_slice());
                let result = copy_bytes(value.as_slice());
                self.store(key, value, version);
                ReadAction::Finished(Ok(result))
            },
            ReadEvent::Replied(_) => next_step(round),
        }
    }
}

/// What the transport reports of the replica that a read asked it to
/// contact.
pub enum ReadEvent {
    /// The replica was reached; its reply, if one came.
    Replied(Option<ClusterMessage>),
    /// The replica could not be reached, for this reason.
    Unreachable(String),
}

/// Whether `id` is among `ids`.
pub fn contains_id(ids: &Vec<NodeId>, id: NodeId) -> (b: bool)
    ensures
        b == ids@.contains(id),
{
    let mut i: usize = 0;
    while i < ids.len()
        invariant
            i <= ids@.len(),
            forall|j: int| 0 <= j < i ==> ids@[j] != id,
        decreases ids.len() - i,
    {
        if ids[i] == id {
            assert(ids@[i as int] == id);
            return true;
        }
        i = i + 1;
    }
    false
}

/// Takes the next step of a read round.
fn next_step(round: &mut ReadRound) -> (action: ReadAction)
    ensures
        action@ == next_request(old(round)@),
        final(round)@ == advanced(old(round)@),
{
    if round.next < round.peers.len() {
        let peer = round.peers[round.next].clone();
        let request = ClusterMessage::ReadRequest { key: copy_bytes(round.key.as_slice()) };
        round.next = round.next + 1;
        ReadAction::Ask { peer, request }
    } else {
        ReadAction::Finished(Err(HermesError::ValueNotFound(copy_bytes(round.key.as_slice()))))
    }
}

impl ReadRound {
    /// Ends the read when a replica cannot be reached, naming the reason.
    pub fn peer_unreachable(&self, reason: String) -> (action: ReadAction)
        ensures
            action@ == ReadActionView::Finished(Err(ErrorView::NetworkError(reason@))),
    {
        ReadAction::Finished(Err(HermesError::NetworkError(reason)))
    }
}

} // verus!
