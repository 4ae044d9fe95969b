use hermes_replication::membership::hash_key;
use hermes_replication::protocol::quorum_failure_message;
use hermes_replication::{ClusterMessage, ClusterNode, NodeId, NodeInfo, NodeRole, NodeState};

fn local_node() -> ClusterNode {
    ClusterNode::new("127.0.0.1:8080".to_string())
}

#[test]
fn test_cluster_node_creation() {
    let node = local_node();

    assert_eq!(node.member_count(), 1);
    assert_eq!(node.info.state, NodeState::Active);
}

#[test]
fn test_version_increment() {
    let mut node = local_node();

    // Get initial version
    let v1 = node.get_next_version("key1".as_bytes());

    // Insert data with version 1
    node.store("key1".to_string().into_bytes(), vec![], v1);

    // Get next version
    let v2 = node.get_next_version("key1".as_bytes());

    // Verify versions are different and increasing
    assert!(v2 > v1, "Version should increase");

    // Verify high 16 bits contain node hash
    let node_hash = (v1 >> 48) & 0xFFFF;
    assert_eq!(
        node_hash,
        (v2 >> 48) & 0xFFFF,
        "Node hash portion should be constant"
    );

    // Verify low 48 bits are sequential
    let counter1 = v1 & 0xFFFFFFFFFFFF;
    let counter2 = v2 & 0xFFFFFFFFFFFF;
    assert_eq!(counter2, counter1 + 1, "Counter should increment by 1");
}

#[test]
fn test_replica_selection() {
    let node = local_node();

    let replicas = node.get_replica_nodes("key1".as_bytes());
    assert_eq!(replicas.len(), 1);
    assert!(replicas.contains(&node.info.id));
}

#[test]
fn test_node_state_change() {
    let mut node = local_node();

    assert_eq!(node.info.state, NodeState::Active);
    node.set_state(NodeState::Inactive);
    assert_eq!(
        node.member(node.info.id).unwrap().state,
        NodeState::Inactive
    );
}

fn info(id: u128, port: u16, state: NodeState) -> NodeInfo {
    NodeInfo {
        id: NodeId(id),
        address: format!("127.0.0.1:{}", port),
        role: NodeRole::Follower,
        state,
    }
}

#[test]
fn fresh_ids_are_random_uuids() {
    let id = NodeId::new();
    assert_eq!((id.0 >> 76) & 0xf, 4);
    assert_eq!((id.0 >> 62) & 3, 2);
    let other = NodeId::default();
    assert_ne!(id, other);
}

#[test]
fn version_is_node_part_over_counter() {
    let mut node = ClusterNode::with_id(NodeId(0xabcd_0000_1234_5678), "127.0.0.1:1".to_string());
    assert_eq!(node.get_next_version(b"k"), 0x5678_0000_0000_0000);
    assert_eq!(node.get_next_version(b"k"), 0x5678_0000_0000_0001);
    assert_eq!(node.get_next_version(b"other"), 0x5678_0000_0000_0002);
}

#[test]
fn key_hash_sums_bytes() {
    assert_eq!(hash_key(b""), 0);
    assert_eq!(hash_key(b"abc"), 97 + 98 + 99);
    assert_eq!(hash_key(b"test_key"), 116 + 101 + 115 + 116 + 95 + 107 + 101 + 121);
}

#[test]
fn quorum_failure_names_each_node() {
    let ids = vec![
        NodeId(0x67e55044_10b1_426f_9247_bb680e5fe0c8),
        NodeId(0x0000000a_0000_4000_8000_00000000000f),
    ];
    assert_eq!(
        quorum_failure_message(&ids),
        "Failed to validate with nodes: [NodeId(67e55044-10b1-426f-9247-bb680e5fe0c8), NodeId(0000000a-0000-4000-8000-00000000000f)]"
    );
    assert_eq!(quorum_failure_message(&vec![]), "Failed to validate with nodes: []");
}

#[test]
fn heartbeat_is_acknowledged() {
    let mut node = ClusterNode::with_id(NodeId(1), "127.0.0.1:1".to_string());
    let reply = node.handle_message(NodeId(2), ClusterMessage::HeartBeat);
    assert!(matches!(reply, Some(ClusterMessage::HeartBeatAck)));
}

#[test]
fn join_request_records_member_in_id_order() {
    let mut node = ClusterNode::with_id(NodeId(5), "127.0.0.1:5".to_string());
    let reply = node.handle_message(NodeId(9), ClusterMessage::JoinRequest(info(9, 9, NodeState::Active)));
    node.handle_message(NodeId(2), ClusterMessage::JoinRequest(info(2, 2, NodeState::Suspected)));
    match reply {
        Some(ClusterMessage::JoinResponse(members)) => {
            let ids: Vec<u128> = members.iter().map(|m| m.id.0).collect();
            assert_eq!(ids, vec![5, 9]);
        }
        other => panic!("unexpected reply {:?}", other),
    }
    let ids: Vec<u128> = node.members().iter().map(|m| m.id.0).collect();
    assert_eq!(ids, vec![2, 5, 9]);
    // a second join of the same node replaces its record
    node.handle_message(NodeId(2), ClusterMessage::JoinRequest(info(2, 22, NodeState::Active)));
    assert_eq!(node.member_count(), 3);
    let m = node.member(NodeId(2)).unwrap();
    assert_eq!(m.address, "127.0.0.1:22");
    assert_eq!(m.state, NodeState::Active);
    assert_eq!(node.get_replica_nodes(b"k"), vec![NodeId(2), NodeId(5), NodeId(9)]);
}

#[test]
fn join_response_records_every_member() {
    let mut node = ClusterNode::with_id(NodeId(5), "127.0.0.1:5".to_string());
    let reply = node.handle_message(
        NodeId(7),
        ClusterMessage::JoinResponse(vec![info(7, 7, NodeState::Active), info(3, 3, NodeState::Inactive)]),
    );
    assert!(reply.is_none());
    let ids: Vec<u128> = node.members().iter().map(|m| m.id.0).collect();
    assert_eq!(ids, vec![3, 5, 7]);
    assert_eq!(node.get_replica_nodes(b"k"), vec![NodeId(5), NodeId(7)]);
}

#[test]
fn validation_keeps_newest_version() {
    let mut node = ClusterNode::with_id(NodeId(1), "127.0.0.1:1".to_string());
    let ack = node.handle_message(
        NodeId(2),
        ClusterMessage::Validation { key: b"k".to_vec(), value: b"v5".to_vec(), version: 5 },
    );
    assert!(matches!(ack, Some(ClusterMessage::ValidationAck { ref key, version: 5 }) if key == b"k"));
    // an older version is acknowledged but not taken
    let ack = node.handle_message(
        NodeId(2),
        ClusterMessage::Validation { key: b"k".to_vec(), value: b"v3".to_vec(), version: 3 },
    );
    assert!(matches!(ack, Some(ClusterMessage::ValidationAck { version: 3, .. })));
    assert_eq!(node.get_value_and_version(b"k"), Some((b"v5".to_vec(), 5)));
    // the same version is not taken either
    node.handle_message(
        NodeId(2),
        ClusterMessage::Validation { key: b"k".to_vec(), value: b"other".to_vec(), version: 5 },
    );
    assert_eq!(node.get_value_and_version(b"k"), Some((b"v5".to_vec(), 5)));
    // a newer one is
    node.handle_message(
        NodeId(2),
        ClusterMessage::Validation { key: b"k".to_vec(), value: b"v8".to_vec(), version: 8 },
    );
    assert_eq!(node.get_version(b"k"), Some(8));
    let reply = node.handle_message(NodeId(2), ClusterMessage::ReadRequest { key: b"k".to_vec() });
    assert!(matches!(reply, Some(ClusterMessage::ReadResponse { ref key, ref value, version: 8 })
        if key == b"k" && value == b"v8"));
}

#[test]
fn read_request_for_missing_key_is_unanswered() {
    let mut node = ClusterNode::with_id(NodeId(1), "127.0.0.1:1".to_string());
    let reply = node.handle_message(NodeId(2), ClusterMessage::ReadRequest { key: b"none".to_vec() });
    assert!(reply.is_none());
    assert_eq!(node.get_version(b"none"), None);
}

#[test]
fn invalidation_clears_value_and_keeps_version() {
    let mut node = ClusterNode::with_id(NodeId(1), "127.0.0.1:1".to_string());
    node.store(b"k".to_vec(), b"v".to_vec(), 4);
    let ack = node.handle_message(NodeId(2), ClusterMessage::Invalidation { key: b"k".to_vec(), version: 9 });
    assert!(matches!(ack, Some(ClusterMessage::InvalidationAck { ref key, version: 9 }) if key == b"k"));
    assert_eq!(node.get_value_and_version(b"k"), Some((vec![], 4)));
    // invalidating an absent key stores nothing
    node.handle_message(NodeId(2), ClusterMessage::Invalidation { key: b"x".to_vec(), version: 1 });
    assert_eq!(node.get_value_and_version(b"x"), None);
    assert!(node.is_invalidation_complete(b"k"));
}

#[test]
fn other_messages_are_unanswered() {
    let mut node = ClusterNode::with_id(NodeId(1), "127.0.0.1:1".to_string());
    let reply = node.handle_message(
        NodeId(2),
        ClusterMessage::DataUpdate { key: b"k".to_vec(), value: b"v".to_vec(), version: 1 },
    );
    assert!(reply.is_none());
    assert!(node.handle_message(NodeId(2), ClusterMessage::HeartBeatAck).is_none());
    assert_eq!(node.get_version(b"k"), None);
}

#[test]
fn coordinator_is_active_member_at_hash() {
    let mut node = ClusterNode::with_id(NodeId(10), "127.0.0.1:1".to_string());
    node.handle_message(NodeId(20), ClusterMessage::JoinRequest(info(20, 2, NodeState::Active)));
    node.handle_message(NodeId(30), ClusterMessage::JoinRequest(info(30, 3, NodeState::Inactive)));
    // "abc" hashes to 294; 294 % 2 == 0
    assert_eq!(node.coordinator_for(b"abc"), Some(NodeId(10)));
    // "abd" hashes to 295; 295 % 2 == 1
    assert_eq!(node.coordinator_for(b"abd"), Some(NodeId(20)));
    node.set_state(NodeState::Inactive);
    assert_eq!(node.coordinator_for(b"abc"), Some(NodeId(20)));
}

#[test]
fn only_acknowledgements_of_the_round_version_count() {
    let mut node = ClusterNode::with_id(NodeId(1), "127.0.0.1:1".to_string());
    node.handle_message(NodeId(2), ClusterMessage::JoinRequest(info(2, 2, NodeState::Active)));
    // "a" hashes to 97, odd: the coordinator is the second of [1, 2]
    assert!(node.begin_write(b"a".to_vec(), b"v".to_vec()).is_err());
    let mut round = node.begin_write(b"b".to_vec(), b"v".to_vec()).expect("node 1 coordinates b");
    assert_eq!(round.version, 0x1_0000_0000_0000);
    assert_eq!(round.targets.len(), 1);
    assert_eq!(round.targets[0].id, NodeId(2));
    let good = Some(ClusterMessage::ValidationAck { key: b"b".to_vec(), version: 0x1_0000_0000_0000 });
    round.record_reply(NodeId(2), &good);
    assert!(round.failed.is_empty());
    let stale = Some(ClusterMessage::ValidationAck { key: b"b".to_vec(), version: 7 });
    round.record_reply(NodeId(2), &stale);
    round.record_reply(NodeId(2), &Some(ClusterMessage::HeartBeatAck));
    round.record_reply(NodeId(2), &None);
    assert_eq!(round.failed, vec![NodeId(2), NodeId(2), NodeId(2)]);
    assert!(matches!(node.finish_write(round), Err(hermes_replication::HermesError::QuorumFailed(_))));
    assert_eq!(node.get_value_and_version(b"b"), None);
    // the next write gets the next version
    let round = node.begin_write(b"b".to_vec(), b"w".to_vec()).unwrap();
    assert_eq!(round.version, 0x1_0000_0000_0001);
    assert!(matches!(round.validation_message(), ClusterMessage::Validation { version: 0x1_0000_0000_0001, .. }));
}

#[test]
fn finished_write_never_lowers_the_coordinator_copy() {
    let mut node = ClusterNode::with_id(NodeId(1), "127.0.0.1:1".to_string());
    let older = node.begin_write(b"k".to_vec(), b"older".to_vec()).unwrap();
    let newer = node.begin_write(b"k".to_vec(), b"newer".to_vec()).unwrap();
    assert!(newer.version > older.version);
    let newer_version = newer.version;
    assert!(node.finish_write(newer).is_ok());
    assert!(node.finish_write(older).is_ok());
    assert_eq!(node.get_value_and_version(b"k"), Some((b"newer".to_vec(), newer_version)));
    assert_eq!(node.own_record().id, NodeId(1));
}

#[test]
fn validation_taken_twice_is_taken_once() {
    let mut once = ClusterNode::with_id(NodeId(1), "127.0.0.1:1".to_string());
    let mut twice = ClusterNode::with_id(NodeId(1), "127.0.0.1:1".to_string());
    let m = || ClusterMessage::Validation { key: b"k".to_vec(), value: b"v".to_vec(), version: 3 };
    let a = once.handle_message(NodeId(2), m());
    let b1 = twice.handle_message(NodeId(2), m());
    let b2 = twice.handle_message(NodeId(2), m());
    for r in [a, b1, b2] {
        assert!(matches!(r, Some(ClusterMessage::ValidationAck { ref key, version: 3 }) if key == b"k"));
    }
    assert_eq!(once.get_value_and_version(b"k"), twice.get_value_and_version(b"k"));
}

#[test]
fn validations_commute_to_the_newer() {
    let mut a = ClusterNode::with_id(NodeId(1), "127.0.0.1:1".to_string());
    let mut b = ClusterNode::with_id(NodeId(1), "127.0.0.1:1".to_string());
    let m1 = || ClusterMessage::Validation { key: b"k".to_vec(), value: b"one".to_vec(), version: 7 };
    let m2 = || ClusterMessage::Validation { key: b"k".to_vec(), value: b"two".to_vec(), version: 8 };
    a.handle_message(NodeId(2), m1());
    a.handle_message(NodeId(2), m2());
    b.handle_message(NodeId(2), m2());
    b.handle_message(NodeId(2), m1());
    assert_eq!(a.get_value_and_version(b"k"), Some((b"two".to_vec(), 8)));
    assert_eq!(b.get_value_and_version(b"k"), Some((b"two".to_vec(), 8)));
}

#[test]
fn nodes_agreeing_in_low_bits_share_versions() {
    let mut a = ClusterNode::with_id(NodeId(1), "127.0.0.1:1".to_string());
    let mut b = ClusterNode::with_id(NodeId(0x10001), "127.0.0.1:2".to_string());
    let mut c = ClusterNode::with_id(NodeId(2), "127.0.0.1:3".to_string());
    let va = a.get_next_version(b"k");
    assert_eq!(va, b.get_next_version(b"k"));
    assert_ne!(va, c.get_next_version(b"k"));
}
