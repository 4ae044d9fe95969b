//! Clusters of nodes in one process: the tests carry each message from node
//! to node themselves, in place of the network transport.
use hermes_replication::protocol::{ReadAction, ReadEvent, ReadRound, WriteRound};
use hermes_replication::{ClusterMessage, ClusterNode, HermesError, NodeId, NodeState};

fn new_node(port: u16) -> ClusterNode {
    ClusterNode::new(format!("127.0.0.1:{}", port))
}

fn position(nodes: &[ClusterNode], id: NodeId) -> usize {
    nodes.iter().position(|n| n.info.id == id).expect("a known node")
}

/// Three nodes that know one another, joined as a cluster does at start-up.
fn setup_test_cluster(base_port: u16) -> Vec<ClusterNode> {
    let mut nodes = vec![new_node(base_port), new_node(base_port + 1), new_node(base_port + 2)];
    let infos: Vec<_> = nodes.iter().map(|n| n.info.clone()).collect();
    let joins = [(0, 1), (0, 2), (1, 0), (1, 2), (2, 0), (2, 1)];
    for (at, joining) in joins {
        let from = infos[joining].id;
        let reply = nodes[at].handle_message(from, ClusterMessage::JoinRequest(infos[joining].clone()));
        assert!(matches!(reply, Some(ClusterMessage::JoinResponse(ref members)) if !members.is_empty()));
    }
    nodes
}

/// The coordinator of a key as a client finds it: the members ordered by
/// identity, indexed by the key's byte sum modulo their number.
fn find_coordinator(node: &ClusterNode, key: &[u8]) -> NodeId {
    let hash = key.iter().fold(0u64, |acc, &x| acc.wrapping_add(x as u64));
    let mut active_members = node.members();
    active_members.sort_by_key(|info| info.id);
    let id = active_members[hash as usize % active_members.len()].id;
    assert_eq!(node.coordinator_for(key), Some(id));
    id
}

/// A write at node `at`, with the replicas marked unreachable failing to
/// answer.
fn write(
    nodes: &mut [ClusterNode],
    reachable: &[bool],
    at: usize,
    key: &[u8],
    value: &[u8],
) -> Result<(), HermesError> {
    let mut round = nodes[at].begin_write(key.to_vec(), value.to_vec())?;
    replicate(nodes, reachable, at, &mut round);
    nodes[at].finish_write(round)
}

/// Carries a write round from node `at` to its replicas and records their
/// replies.
fn replicate(nodes: &mut [ClusterNode], reachable: &[bool], at: usize, round: &mut WriteRound) {
    let from = nodes[at].info.id;
    let targets = round.targets.clone();
    let mut connected = Vec::new();
    for target in targets {
        let j = position(nodes, target.id);
        if reachable[j] {
            connected.push(j);
        } else {
            round.record_unreachable(target.id);
        }
    }
    for j in connected {
        let reply = nodes[j].handle_message(from, round.validation_message());
        let id = nodes[j].info.id;
        round.record_reply(id, &reply);
    }
}

/// A read at node `at`.
fn read(nodes: &mut [ClusterNode], reachable: &[bool], at: usize, key: &[u8]) -> Result<Vec<u8>, HermesError> {
    let (mut round, mut action): (ReadRound, ReadAction) = nodes[at].begin_read(key.to_vec());
    let from = nodes[at].info.id;
    loop {
        match action {
            ReadAction::Finished(result) => return result,
            ReadAction::Ask { peer, request } => {
                let j = position(nodes, peer.id);
                let event = if reachable[j] {
                    ReadEvent::Replied(nodes[j].handle_message(from, request))
                } else {
                    ReadEvent::Unreachable("connection refused".to_string())
                };
                action = nodes[at].continue_read(&mut round, event);
            }
        }
    }
}

#[test]
fn test_three_node_cluster() {
    let mut nodes = setup_test_cluster(8081);
    let joining = nodes[1].info.clone();
    let response = nodes[0].handle_message(joining.id, ClusterMessage::JoinRequest(joining));
    assert!(matches!(response, Some(ClusterMessage::JoinResponse(ref members)) if !members.is_empty()));

    let from = nodes[1].info.id;
    let response = nodes[0].handle_message(from, ClusterMessage::HeartBeat);
    assert!(matches!(response, Some(ClusterMessage::HeartBeatAck)));
    for node in &nodes {
        assert_eq!(node.member_count(), 3);
    }
}

#[test]
fn test_write_and_read() {
    let mut nodes = setup_test_cluster(8091);
    let all = [true, true, true];
    let test_key = b"test_key".to_vec();
    let coordinator = position(&nodes, find_coordinator(&nodes[0], &test_key));

    write(&mut nodes, &all, coordinator, &test_key, b"test_value").expect("write");

    let value1 = read(&mut nodes, &all, 0, &test_key).expect("read from node1");
    let value2 = read(&mut nodes, &all, 1, &test_key).expect("read from node2");
    let value3 = read(&mut nodes, &all, 2, &test_key).expect("read from node3");

    assert_eq!(value1, b"test_value");
    assert_eq!(value2, b"test_value");
    assert_eq!(value3, b"test_value");
}

#[test]
fn test_hermes_protocol() {
    let mut nodes = setup_test_cluster(9091);
    let all = [true, true, true];

    let key1 = b"key1".to_vec();
    let coordinator = position(&nodes, find_coordinator(&nodes[0], &key1));
    write(&mut nodes, &all, coordinator, &key1, b"value1").unwrap();

    let val1 = read(&mut nodes, &all, 0, &key1).unwrap();
    let val2 = read(&mut nodes, &all, 1, &key1).unwrap();
    let val3 = read(&mut nodes, &all, 2, &key1).unwrap();
    assert_eq!(val1, b"value1");
    assert_eq!(val2, b"value1");
    assert_eq!(val3, b"value1");

    write(&mut nodes, &all, coordinator, &key1, b"value1_updated").unwrap();

    let val1 = read(&mut nodes, &all, 0, &key1).unwrap();
    let val2 = read(&mut nodes, &all, 1, &key1).unwrap();
    let val3 = read(&mut nodes, &all, 2, &key1).unwrap();
    assert_eq!(val1, b"value1_updated");
    assert_eq!(val2, b"value1_updated");
    assert_eq!(val3, b"value1_updated");

    let key2 = b"key2".to_vec();
    let coordinator = position(&nodes, find_coordinator(&nodes[0], &key2));
    write(&mut nodes, &all, coordinator, &key2, b"value2").unwrap();

    let val1 = read(&mut nodes, &all, 0, &key2).unwrap();
    let val2 = read(&mut nodes, &all, 1, &key2).unwrap();
    let val3 = read(&mut nodes, &all, 2, &key2).unwrap();
    assert_eq!(val1, b"value2");
    assert_eq!(val2, b"value2");
    assert_eq!(val3, b"value2");

    // the versions agree on every node, and the update has the larger one
    let v = nodes[coordinator].get_version(&key2);
    for node in &nodes {
        assert_eq!(node.get_version(&key2), v);
    }
}

#[test]
fn test_concurrent_writes() {
    let mut nodes = setup_test_cluster(9081);
    let all = [true, true, true];
    let test_key = b"concurrent_key".to_vec();
    let coordinator = position(&nodes, find_coordinator(&nodes[0], &test_key));

    // Both writes start before either finishes; the later one reaches the
    // replicas and finishes first.
    let mut write1 = nodes[coordinator].begin_write(test_key.clone(), b"value1".to_vec()).unwrap();
    let mut write2 = nodes[coordinator].begin_write(test_key.clone(), b"value2".to_vec()).unwrap();
    replicate(&mut nodes, &all, coordinator, &mut write2);
    let result2 = nodes[coordinator].finish_write(write2);
    replicate(&mut nodes, &all, coordinator, &mut write1);
    let result1 = nodes[coordinator].finish_write(write1);
    assert!(result1.is_ok());
    assert!(result2.is_ok());

    let val1 = read(&mut nodes, &all, 0, &test_key).unwrap();
    let val2 = read(&mut nodes, &all, 1, &test_key).unwrap();
    let val3 = read(&mut nodes, &all, 2, &test_key).unwrap();

    assert_eq!(val1, val2);
    assert_eq!(val2, val3);
    assert!(val1 == b"value1" || val1 == b"value2");
    let version = nodes[0].get_version(&test_key);
    assert!(version.is_some());
    assert_eq!(nodes[1].get_version(&test_key), version);
    assert_eq!(nodes[2].get_version(&test_key), version);
}

#[test]
fn test_write_failures() {
    let mut nodes = setup_test_cluster(7071);
    let all = [true, true, true];

    // Find a key that makes node1 the coordinator
    let mut key = b"test_key".to_vec();
    while find_coordinator(&nodes[0], &key) != nodes[0].info.id {
        key.push(b'_');
    }

    let result = write(&mut nodes, &all, 1, &key, b"value1");
    assert!(matches!(result, Err(HermesError::NotResponsible)));

    nodes[0].set_state(NodeState::Inactive);
    let result = write(&mut nodes, &all, 0, &key, b"value1");
    assert!(matches!(result, Err(HermesError::NoActiveReplicas)));
}

#[test]
fn test_read_failures() {
    let mut nodes = vec![new_node(7081)];
    let all = [true];

    let result = read(&mut nodes, &all, 0, b"nonexistent");
    assert!(matches!(result, Err(HermesError::ValueNotFound(ref k)) if k == b"nonexistent"));

    nodes[0].set_state(NodeState::Inactive);
    let result = read(&mut nodes, &all, 0, b"key1");
    assert!(matches!(result, Err(HermesError::NoActiveReplicas)));
}

/// Two nodes that both know each other.
fn two_node_cluster(port1: u16, port2: u16) -> Vec<ClusterNode> {
    let mut nodes = vec![new_node(port1), new_node(port2)];
    let info1 = nodes[0].info.clone();
    let info2 = nodes[1].info.clone();
    nodes[0].handle_message(info2.id, ClusterMessage::JoinRequest(info2.clone()));
    nodes[1].handle_message(info1.id, ClusterMessage::JoinRequest(info1));
    nodes
}

#[test]
fn test_network_failures() {
    let mut nodes = two_node_cluster(7081, 0);
    let reachable = [true, false];

    let mut key = b"test_key".to_vec();
    while find_coordinator(&nodes[0], &key) != nodes[0].info.id {
        key.push(b'_');
    }

    let result = write(&mut nodes, &reachable, 0, &key, b"value1");
    assert!(matches!(result, Err(HermesError::QuorumFailed(_))));
}

#[test]
fn test_quorum_failures() {
    let mut nodes = two_node_cluster(7091, 7092);
    let reachable = [true, false];

    let mut key = b"test_key".to_vec();
    while find_coordinator(&nodes[0], &key) != nodes[0].info.id {
        key.push(b'_');
    }

    let result = write(&mut nodes, &reachable, 0, &key, b"value1");
    match result {
        Err(HermesError::QuorumFailed(message)) => {
            let expected = format!("Failed to validate with nodes: [NodeId({})]", uuid_of(nodes[1].info.id));
            assert_eq!(message, expected);
        }
        other => panic!("unexpected outcome {:?}", other),
    }
    // no partial update: the coordinator's own copy stays as it was
    assert_eq!(nodes[0].get_value_and_version(&key), None);
}

fn uuid_of(id: NodeId) -> String {
    let hex = format!("{:032x}", id.0);
    format!("{}-{}-{}-{}-{}", &hex[0..8], &hex[8..12], &hex[12..16], &hex[16..20], &hex[20..32])
}

#[test]
fn read_falls_back_to_peers_after_invalidation() {
    let mut nodes = setup_test_cluster(6001);
    let all = [true, true, true];
    let key = b"fallback".to_vec();
    let coordinator = position(&nodes, find_coordinator(&nodes[0], &key));
    write(&mut nodes, &all, coordinator, &key, b"v").unwrap();
    let other = (coordinator + 1) % 3;
    let version = nodes[other].get_version(&key).unwrap();
    let from = nodes[coordinator].info.id;
    nodes[other].handle_message(from, ClusterMessage::Invalidation { key: key.clone(), version });
    assert_eq!(nodes[other].get_value_and_version(&key), Some((vec![], version)));
    // the read fetches the value from another replica and keeps it
    assert_eq!(read(&mut nodes, &all, other, &key).unwrap(), b"v");
    assert_eq!(nodes[other].get_value_and_version(&key), Some((b"v".to_vec(), version)));
}

#[test]
fn unreachable_peer_ends_read_with_network_error() {
    let mut nodes = two_node_cluster(6101, 6102);
    let result = read(&mut nodes, &[true, false], 0, b"absent");
    assert!(matches!(result, Err(HermesError::NetworkError(ref m)) if m == "connection refused"));
}

#[test]
fn suspected_node_refuses_reads() {
    let mut nodes = two_node_cluster(6201, 6202);
    // node1 marks itself suspected while node2 stays active: node1 is no
    // active replica
    nodes[0].set_state(NodeState::Suspected);
    let result = read(&mut nodes, &[true, true], 0, b"k");
    assert!(matches!(result, Err(HermesError::NoActiveReplicas)));
}

#[test]
fn failed_write_leaves_earlier_copy_everywhere() {
    let mut nodes = two_node_cluster(6301, 6302);
    let mut key = b"kept".to_vec();
    while find_coordinator(&nodes[0], &key) != nodes[0].info.id {
        key.push(b'_');
    }
    write(&mut nodes, &[true, true], 0, &key, b"first").unwrap();
    let before = nodes[0].get_value_and_version(&key);
    let result = write(&mut nodes, &[true, false], 0, &key, b"second");
    assert!(matches!(result, Err(HermesError::QuorumFailed(_))));
    assert_eq!(nodes[0].get_value_and_version(&key), before);
    assert_eq!(read(&mut nodes, &[true, true], 0, &key).unwrap(), b"first");
    assert_eq!(read(&mut nodes, &[true, true], 1, &key).unwrap(), b"first");
}
