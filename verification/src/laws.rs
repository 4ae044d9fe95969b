//! Properties of the protocol that span several operations.
use crate::membership::{
    active_ids, coordinator, lemma_active_ids_contains, lemma_active_iff_record_active, lemma_upsert_lookup,
    lemma_upsert_sorted, lemma_with_state_lookup, lookup, sorted_by_id, with_state,
};
use crate::protocol::{
    acknowledges, after_replies, after_version, after_write, fetch_round, local_value,
    advanced, next_request, read_refusal, ReadRoundView, read_start, response_to, state_after, write_outcome,
    write_refusal, write_round_for, NodeView, ReadActionView, WriteRoundView,
};
use crate::membership::{key_hash, lemma_peers_contains, lemma_upsert_all_lookup};
use crate::store::{invalidated, validated};
use vstd::arithmetic::div_mod::lemma_add_mod_noop;
use crate::version::{counter_part, counter_span, lemma_consecutive_versions, version_of};
use crate::types::{ErrorView, MessageView, NodeId, NodeInfoView, NodeState};
use vstd::prelude::*;

verus! {

/// A validation never lowers the version of a copy: afterwards the key holds
/// the larger of the two versions, with the value that came with it.
pub proof fn law_validation_keeps_newest(
    d: Map<Seq<u8>, (Seq<u8>, u64)>,
    key: Seq<u8>,
    value: Seq<u8>,
    version: u64,
)
    ensures
        validated(d, key, value, version).contains_key(key),
        d.contains_key(key) ==> validated(d, key, value, version)[key].1 >= d[key].1,
        validated(d, key, value, version)[key].1 >= version,
        d.contains_key(key) && version <= d[key].1 ==> validated(d, key, value, version)[key]
            == d[key],
        !(d.contains_key(key) && version <= d[key].1) ==> validated(d, key, value, version)[key]
            == (value, version),
        forall|k: Seq<u8>|
            k != key ==> (#[trigger] validated(d, key, value, version).contains_key(k)
                == d.contains_key(k)) && (d.contains_key(k) ==> validated(
                d,
                key,
                value,
                version,
            )[k] == d[k]),
{
}

/// A node that takes a validation answers a later read request for the key
/// with the validated value and version, unless it already held the key at a
/// version that is not lower.
pub proof fn law_validation_then_read(
    pre: NodeView,
    key: Seq<u8>,
    value: Seq<u8>,
    version: u64,
)
    requires
        !(pre.data.contains_key(key) && version <= pre.data[key].1),
    ensures
        response_to(
            state_after(pre, MessageView::Validation { key, value, version }),
            MessageView::ReadRequest { key },
        ) == Some(MessageView::ReadResponse { key, value, version }),
{
}

/// A validation is always acknowledged with its own key and version, whether
/// or not it replaced the copy.
pub proof fn law_validation_acknowledged(
    pre: NodeView,
    key: Seq<u8>,
    value: Seq<u8>,
    version: u64,
)
    ensures
        response_to(pre, MessageView::Validation { key, value, version }) == Some(
            MessageView::ValidationAck { key, version },
        ),
{
}

/// An invalidation is acknowledged with its key and version, keeps the
/// copy's version and clears its value, so that a later read of the key at
/// this node is not answered from the local copy.
pub proof fn law_invalidation_clears_value(pre: NodeView, key: Seq<u8>, version: u64)
    ensures
        ({
            let post = state_after(pre, MessageView::Invalidation { key, version });
            &&& response_to(pre, MessageView::Invalidation { key, version }) == Some(
                MessageView::InvalidationAck { key, version },
            )
            &&& post.data.dom() == pre.data.dom()
            &&& pre.data.contains_key(key) ==> post.data[key] == (Seq::<u8>::empty(), pre.data[key].1)
            &&& local_value(post, key) is None
            &&& read_refusal(post) is None ==> read_start(post, key) == next_request(
                fetch_round(post, key),
            )
        }),
{
    let post = state_after(pre, MessageView::Invalidation { key, version });
    assert(post.data == invalidated(pre.data, key));
    assert(post.data.dom() =~= pre.data.dom());
}

/// A join request records the joining node, replacing any earlier record of
/// it, leaves every other member's record as it was, keeps the table in order
/// of identity, and is answered with the whole new table.
pub proof fn law_join_records_member(pre: NodeView, info: NodeInfoView, id: NodeId)
    requires
        sorted_by_id(pre.members),
    ensures
        ({
            let post = state_after(pre, MessageView::JoinRequest(info));
            &&& lookup(post.members, id) == (if id == info.id {
                Some(info)
            } else {
                lookup(pre.members, id)
            })
            &&& sorted_by_id(post.members)
            &&& response_to(pre, MessageView::JoinRequest(info)) == Some(
                MessageView::JoinResponse(post.members),
            )
        }),
{
    lemma_upsert_lookup(pre.members, info, id);
    lemma_upsert_sorted(pre.members, info);
}

/// The replicas of a key are the active members: an identity is among the
/// replicas exactly when the table holds an active record of it.
pub proof fn law_replicas_are_active_members(members: Seq<NodeInfoView>, id: NodeId)
    requires
        sorted_by_id(members),
    ensures
        active_ids(members).contains(id) <==> (lookup(members, id) matches Some(m) && m.state
            == NodeState::Active),
{
    lemma_active_iff_record_active(members, id);
}

/// The replicas of a key are listed once each, in increasing order of
/// identity.
pub proof fn law_replicas_in_id_order(members: Seq<NodeInfoView>)
    requires
        sorted_by_id(members),
    ensures
        forall|i: int, j: int|
            0 <= i < j < active_ids(members).len() ==> active_ids(members)[i].0 < active_ids(
                members,
            )[j].0,
    decreases members.len(),
{
    if members.len() > 0 {
        let init = members.drop_last();
        assert(sorted_by_id(init));
        law_replicas_in_id_order(init);
        if members.last().state == NodeState::Active {
            let a = active_ids(init);
            assert forall|i: int| 0 <= i < a.len() implies a[i].0 < members.last().id.0 by {
                assert(a.contains(a[i]));
                lemma_active_ids_contains(init, a[i]);
                let k = choose|k: int|
                    0 <= k < init.len() && #[trigger] init[k].id == a[i] && init[k].state
                        == NodeState::Active;
                assert(members[k] == init[k]);
            }
        }
    }
}

/// A key has a coordinator exactly when some member is active, and the
/// coordinator is an active member.
pub proof fn law_coordinator_is_active_member(members: Seq<NodeInfoView>, key: Seq<u8>)
    requires
        sorted_by_id(members),
    ensures
        coordinator(members, key) is Some <==> active_ids(members).len() > 0,
        coordinator(members, key) matches Some(c) ==> (lookup(members, c) matches Some(m)
            && m.state == NodeState::Active),
{
    if let Some(c) = coordinator(members, key) {
        let a = active_ids(members);
        let k = (crate::membership::key_hash(key) as usize) as int % (a.len() as int);
        assert(a[k] == c);
        assert(a.contains(c));
        lemma_active_iff_record_active(members, c);
    }
}

/// Only the coordinator can write: of two nodes that know the same members,
/// both admitted to write the same key, neither is another node.
pub proof fn law_single_coordinator(a: NodeView, b: NodeView, key: Seq<u8>)
    requires
        a.members == b.members,
        write_refusal(a, key) is None,
        write_refusal(b, key) is None,
    ensures
        a.info.id == b.info.id,
        coordinator(a.members, key) == Some(a.info.id),
{
}

/// A node whose own record is inactive refuses to coordinate any write.
pub proof fn law_inactive_node_refuses_writes(pre: NodeView, key: Seq<u8>)
    requires
        lookup(pre.members, pre.info.id) is Some,
    ensures
        write_refusal(
            NodeView {
                members: with_state(pre.members, pre.info.id, NodeState::Inactive),
                ..pre
            },
            key,
        ) == Some(ErrorView::NoActiveReplicas),
{
    lemma_with_state_lookup(pre.members, pre.info.id, NodeState::Inactive, pre.info.id);
}

/// A node whose own record is inactive refuses every read: it is no active
/// replica.
pub proof fn law_inactive_node_refuses_reads(pre: NodeView, key: Seq<u8>)
    requires
        sorted_by_id(pre.members),
        lookup(pre.members, pre.info.id) is Some,
    ensures
        ({
            let post = NodeView {
                members: with_state(pre.members, pre.info.id, NodeState::Inactive),
                ..pre
            };
            &&& read_refusal(post) == Some(ErrorView::NoActiveReplicas)
            &&& read_start(post, key) == ReadActionView::Finished(
                Err(ErrorView::NoActiveReplicas),
            )
        }),
{
    lemma_with_state_lookup(pre.members, pre.info.id, NodeState::Inactive, pre.info.id);
}

/// Setting a node's state changes its own record's state and leaves every
/// other record as it was.
pub proof fn law_set_state_own_record(pre: NodeView, state: NodeState, id: NodeId)
    ensures
        ({
            let members = with_state(pre.members, pre.info.id, state);
            &&& id != pre.info.id ==> lookup(members, id) == lookup(pre.members, id)
            &&& lookup(pre.members, pre.info.id) matches Some(m) ==> lookup(
                members,
                pre.info.id,
            ) == Some(NodeInfoView { id: m.id, address: m.address, role: m.role, state })
        }),
{
    lemma_with_state_lookup(pre.members, pre.info.id, state, id);
    lemma_with_state_lookup(pre.members, pre.info.id, state, pre.info.id);
}

/// Read your write at the coordinator: once every replica acknowledged a
/// write of a non-empty value whose version is newer than the coordinator's
/// copy, a read of the key at the coordinator returns that value, provided
/// the node still serves reads.
pub proof fn law_read_after_write(pre: NodeView, round: WriteRoundView)
    requires
        read_refusal(pre) is None,
        round.failed.len() == 0,
        round.value.len() > 0,
        !(pre.data.contains_key(round.key) && round.version <= pre.data[round.key].1),
    ensures
        read_start(after_write(after_version(pre), round), round.key) == ReadActionView::Finished(
            Ok(round.value),
        ),
{
}

/// Read your write at a replica: once a replica takes the validation of a
/// non-empty value whose version is newer than its copy, a read of the key at
/// that replica returns the value, provided it serves reads.
pub proof fn law_validation_then_local_read(
    pre: NodeView,
    key: Seq<u8>,
    value: Seq<u8>,
    version: u64,
)
    requires
        read_refusal(pre) is None,
        value.len() > 0,
        !(pre.data.contains_key(key) && version <= pre.data[key].1),
    ensures
        read_start(state_after(pre, MessageView::Validation { key, value, version }), key)
            == ReadActionView::Finished(Ok(value)),
{
    let post = state_after(pre, MessageView::Validation { key, value, version });
    assert(post.members == pre.members);
    assert(read_refusal(post) == read_refusal(pre));
}

/// A failed write leaves the coordinator as it was: no partial update.
pub proof fn law_failed_write_changes_nothing(pre: NodeView, round: WriteRoundView)
    requires
        round.failed.len() > 0,
    ensures
        after_write(pre, round) == pre,
        write_outcome(round) is Err,
{
}

/// Every replica answers a write round's validation with an acknowledgement
/// of the round's version.
pub proof fn law_replica_acknowledges_round(replica: NodeView, round: WriteRoundView)
    ensures
        acknowledges(
            response_to(
                replica,
                MessageView::Validation { key: round.key, value: round.value, version: round.version },
            ),
            round.version,
        ),
{
}

/// A write round that started without failures succeeds exactly when every
/// reply recorded for it acknowledges the round's version.
pub proof fn law_round_succeeds_iff_all_acknowledge(
    round: WriteRoundView,
    replies: Seq<(NodeId, Option<MessageView>)>,
)
    ensures
        after_replies(round, replies).version == round.version,
        after_replies(round, replies).key == round.key,
        after_replies(round, replies).value == round.value,
        after_replies(round, replies).failed.len() >= round.failed.len(),
        (write_outcome(after_replies(round, replies)) is Ok) <==> (round.failed.len() == 0 && forall|
            i: int,
        |
            0 <= i < replies.len() ==> acknowledges(#[trigger] replies[i].1, round.version)),
    decreases replies.len(),
{
    if replies.len() > 0 {
        let init = replies.drop_last();
        law_round_succeeds_iff_all_acknowledge(round, init);
        let mid = after_replies(round, init);
        if round.failed.len() == 0 && forall|i: int|
            0 <= i < replies.len() ==> acknowledges(#[trigger] replies[i].1, round.version) {
            assert forall|i: int| 0 <= i < init.len() implies acknowledges(
                #[trigger] init[i].1,
                round.version,
            ) by {
                assert(init[i] == replies[i]);
            }
            assert(acknowledges(replies[replies.len() - 1].1, round.version));
        }
        if write_outcome(after_replies(round, replies)) is Ok {
            assert(acknowledges(replies.last().1, mid.version));
            assert forall|i: int| 0 <= i < replies.len() implies acknowledges(
                #[trigger] replies[i].1,
                round.version,
            ) by {
                if i < init.len() {
                    assert(init[i] == replies[i]);
                }
            }
        }
    }
}

/// A node is admitted to coordinate a write of a key exactly when the key's
/// coordinator, by its member table, is the node itself.
pub proof fn law_coordinator_admitted(pre: NodeView, key: Seq<u8>)
    requires
        sorted_by_id(pre.members),
    ensures
        write_refusal(pre, key) is None <==> coordinator(pre.members, key) == Some(pre.info.id),
{
    if coordinator(pre.members, key) == Some(pre.info.id) {
        law_coordinator_is_active_member(pre.members, key);
    }
}

/// Two successive writes of a key at its coordinator, both acknowledged by
/// every replica: the second is admitted as the first was, its version is the
/// first's plus one (unless the counter part had reached its largest value),
/// and the coordinator's copy holds the first value, then the second.
pub proof fn law_successive_writes(pre: NodeView, key: Seq<u8>, v1: Seq<u8>, v2: Seq<u8>)
    requires
        write_refusal(pre, key) is None,
        !(pre.data.contains_key(key) && version_of(pre.info.id, pre.counter) <= pre.data[key].1),
        counter_part(version_of(pre.info.id, pre.counter)) < counter_span() - 1,
    ensures
        ({
            let r1 = write_round_for(pre, key, v1);
            let mid = after_write(after_version(pre), r1);
            let r2 = write_round_for(mid, key, v2);
            let post = after_write(after_version(mid), r2);
            &&& mid.data[key] == (v1, r1.version)
            &&& write_refusal(mid, key) is None
            &&& r2.version as int == r1.version as int + 1
            &&& post.data[key] == (v2, r2.version)
        }),
{
    lemma_consecutive_versions(pre.info.id, pre.counter);
}

/// At a node, the version of a key's copy after a validation is the larger of
/// the copy's version and the validation's: it never decreases, and a
/// validation at a version that is not higher leaves the copy as it was.
pub proof fn law_validation_version_at_node(pre: NodeView, key: Seq<u8>, value: Seq<u8>, version: u64)
    ensures
        ({
            let post = state_after(pre, MessageView::Validation { key, value, version });
            &&& post.members == pre.members
            &&& post.data.contains_key(key)
            &&& post.data[key].1 == (if pre.data.contains_key(key) && version <= pre.data[key].1 {
                pre.data[key].1
            } else {
                version
            })
            &&& pre.data.contains_key(key) && version <= pre.data[key].1 ==> post.data[key]
                == pre.data[key]
        }),
{
}

/// A validation taken twice has the effect of taking it once, and is
/// acknowledged the same way both times.
pub proof fn law_validation_idempotent(pre: NodeView, key: Seq<u8>, value: Seq<u8>, version: u64)
    ensures
        ({
            let m = MessageView::Validation { key, value, version };
            &&& validated(validated(pre.data, key, value, version), key, value, version)
                == validated(pre.data, key, value, version)
            &&& state_after(state_after(pre, m), m) == state_after(pre, m)
            &&& response_to(state_after(pre, m), m) == response_to(pre, m)
        }),
{
    let d1 = validated(pre.data, key, value, version);
    assert(validated(d1, key, value, version) =~= d1);
}

/// Validations of a key at two different versions commute: taken in either
/// order they have the effect of taking the newer one alone.
pub proof fn law_validations_commute(
    d: Map<Seq<u8>, (Seq<u8>, u64)>,
    key: Seq<u8>,
    v1: Seq<u8>,
    x1: u64,
    v2: Seq<u8>,
    x2: u64,
)
    requires
        x1 != x2,
    ensures
        validated(validated(d, key, v1, x1), key, v2, x2) == validated(
            validated(d, key, v2, x2),
            key,
            v1,
            x1,
        ),
        validated(validated(d, key, v1, x1), key, v2, x2) == (if x1 < x2 {
            validated(d, key, v2, x2)
        } else {
            validated(d, key, v1, x1)
        }),
{
    let a = validated(validated(d, key, v1, x1), key, v2, x2);
    let b = validated(validated(d, key, v2, x2), key, v1, x1);
    let newer = if x1 < x2 {
        validated(d, key, v2, x2)
    } else {
        validated(d, key, v1, x1)
    };
    assert(a =~= newer);
    assert(b =~= newer);
}

/// The state of a member when a write round's validation reaches it.
pub open spec fn validation_of(round: WriteRoundView) -> MessageView {
    MessageView::Validation { key: round.key, value: round.value, version: round.version }
}

/// A member's copy of `key` holds a version that is not lower than `version`.
pub open spec fn holds_not_lower(n: NodeView, key: Seq<u8>, version: u64) -> bool {
    n.data.contains_key(key) && version <= n.data[key].1
}

/// After a write round that every replica acknowledged, every member has the
/// write: the coordinator, which finished the round, and each replica, which
/// took its validation. Each copy of the key is the written value at the
/// round's version, unless it already held a version that is not lower; each
/// such member that serves reads answers a read of the key with the value,
/// when it is not empty.
pub proof fn law_acknowledged_write_everywhere(
    coord: NodeView,
    replicas: Seq<NodeView>,
    round: WriteRoundView,
)
    requires
        round.failed.len() == 0,
    ensures
        ({
            let post = after_write(coord, round);
            &&& !holds_not_lower(coord, round.key, round.version) ==> post.data[round.key] == (
                round.value,
                round.version,
            )
            &&& !holds_not_lower(coord, round.key, round.version) && read_refusal(coord) is None
                && round.value.len() > 0 ==> read_start(post, round.key) == ReadActionView::Finished(
                Ok(round.value),
            )
        }),
        forall|i: int|
            0 <= i < replicas.len() ==> {
                let p = #[trigger] replicas[i];
                let q = state_after(p, validation_of(round));
                &&& acknowledges(response_to(p, validation_of(round)), round.version)
                &&& !holds_not_lower(p, round.key, round.version) ==> q.data[round.key] == (
                    round.value,
                    round.version,
                )
                &&& !holds_not_lower(p, round.key, round.version) && read_refusal(p) is None
                    && round.value.len() > 0 ==> read_start(q, round.key)
                    == ReadActionView::Finished(Ok(round.value))
            },
{
    assert forall|i: int| 0 <= i < replicas.len() implies {
        let p = #[trigger] replicas[i];
        let q = state_after(p, validation_of(round));
        &&& acknowledges(response_to(p, validation_of(round)), round.version)
        &&& !holds_not_lower(p, round.key, round.version) ==> q.data[round.key] == (
            round.value,
            round.version,
        )
        &&& !holds_not_lower(p, round.key, round.version) && read_refusal(p) is None
            && round.value.len() > 0 ==> read_start(q, round.key) == ReadActionView::Finished(
            Ok(round.value),
        )
    } by {
        let p = replicas[i];
        if !holds_not_lower(p, round.key, round.version) && read_refusal(p) is None
            && round.value.len() > 0 {
            law_validation_then_local_read(p, round.key, round.value, round.version);
        }
    }
}

/// Two successive writes of a key at its coordinator, both acknowledged by
/// every replica, reach every member: the second version is the first plus
/// one (unless the counter part had reached its largest value), and every
/// member, coordinator and replicas alike, ends with the second value at the
/// second version, unless its copy already held a version that is not lower.
pub proof fn law_successive_writes_everywhere(
    pre: NodeView,
    replicas: Seq<NodeView>,
    key: Seq<u8>,
    v1: Seq<u8>,
    v2: Seq<u8>,
)
    requires
        write_refusal(pre, key) is None,
        counter_part(version_of(pre.info.id, pre.counter)) < counter_span() - 1,
    ensures
        ({
            let r1 = write_round_for(pre, key, v1);
            let mid = after_write(after_version(pre), r1);
            let r2 = write_round_for(mid, key, v2);
            let post = after_write(after_version(mid), r2);
            &&& write_refusal(mid, key) is None
            &&& r2.version as int == r1.version as int + 1
            &&& !holds_not_lower(pre, key, r2.version) ==> post.data[key] == (v2, r2.version)
            &&& forall|i: int|
                0 <= i < replicas.len() ==> !holds_not_lower(#[trigger] replicas[i], key, r2.version)
                    ==> state_after(
                    state_after(replicas[i], validation_of(r1)),
                    validation_of(r2),
                ).data[key] == (v2, r2.version)
        }),
{
    lemma_consecutive_versions(pre.info.id, pre.counter);
}

/// Two writes of a key begun one after the other at its coordinator and
/// finished in either order, each acknowledged by every replica, converge:
/// they carry different versions, and every member, coordinator and replicas
/// alike, ends in the same state whichever order the validations reach it
/// in, the state that taking the newer write alone gives. So every member
/// whose copy held no version at least the newer one ends with the newer
/// value at the newer version.
pub proof fn law_concurrent_writes_converge(
    coord: NodeView,
    replicas: Seq<NodeView>,
    key: Seq<u8>,
    v1: Seq<u8>,
    v2: Seq<u8>,
)
    requires
        write_refusal(coord, key) is None,
        counter_part(version_of(coord.info.id, coord.counter)) < counter_span() - 1,
    ensures
        ({
            let r1 = write_round_for(coord, key, v1);
            let c1 = after_version(coord);
            let r2 = write_round_for(c1, key, v2);
            let c2 = after_version(c1);
            &&& write_refusal(c1, key) is None
            &&& r2.version as int == r1.version as int + 1
            &&& after_write(after_write(c2, r1), r2) == after_write(after_write(c2, r2), r1)
            &&& after_write(after_write(c2, r1), r2) == after_write(c2, r2)
            &&& !holds_not_lower(coord, key, r2.version) ==> after_write(
                after_write(c2, r2),
                r1,
            ).data[key] == (v2, r2.version)
            &&& forall|i: int|
                0 <= i < replicas.len() ==> {
                    let p = #[trigger] replicas[i];
                    let a = state_after(state_after(p, validation_of(r1)), validation_of(r2));
                    let b = state_after(state_after(p, validation_of(r2)), validation_of(r1));
                    &&& a == b
                    &&& a == state_after(p, validation_of(r2))
                    &&& !holds_not_lower(p, key, r2.version) ==> a.data[key] == (v2, r2.version)
                }
        }),
{
    lemma_consecutive_versions(coord.info.id, coord.counter);
    let r1 = write_round_for(coord, key, v1);
    let c1 = after_version(coord);
    let r2 = write_round_for(c1, key, v2);
    let c2 = after_version(c1);
    law_validations_commute(c2.data, key, v1, r1.version, v2, r2.version);
    assert forall|i: int| 0 <= i < replicas.len() implies {
        let p = #[trigger] replicas[i];
        let a = state_after(state_after(p, validation_of(r1)), validation_of(r2));
        let b = state_after(state_after(p, validation_of(r2)), validation_of(r1));
        &&& a == b
        &&& a == state_after(p, validation_of(r2))
        &&& !holds_not_lower(p, key, r2.version) ==> a.data[key] == (v2, r2.version)
    } by {
        let p = replicas[i];
        law_validations_commute(p.data, key, v1, r1.version, v2, r2.version);
    }
}

/// A write sends its validation to, and a read that must fetch asks, exactly
/// the members other than the node itself whose record is active.
pub proof fn law_targets_are_other_active_members(pre: NodeView, key: Seq<u8>, value: Seq<u8>)
    ensures
        forall|m: NodeInfoView|
            #[trigger] write_round_for(pre, key, value).targets.contains(m) <==> (
            pre.members.contains(m) && m.id != pre.info.id && m.state == NodeState::Active),
        forall|m: NodeInfoView|
            #[trigger] fetch_round(pre, key).peers.contains(m) <==> (pre.members.contains(m)
                && m.id != pre.info.id && m.state == NodeState::Active),
{
    assert forall|m: NodeInfoView|
        #[trigger] write_round_for(pre, key, value).targets.contains(m) <==> (
        pre.members.contains(m) && m.id != pre.info.id && m.state == NodeState::Active) by {
        lemma_peers_contains(pre.members, pre.info.id, m);
    }
    assert forall|m: NodeInfoView|
        #[trigger] fetch_round(pre, key).peers.contains(m) <==> (pre.members.contains(m) && m.id
            != pre.info.id && m.state == NodeState::Active) by {
        lemma_peers_contains(pre.members, pre.info.id, m);
    }
}

/// A read round after `n` of its replicas answered without the value.
pub open spec fn advanced_times(round: ReadRoundView, n: nat) -> ReadRoundView
    decreases n,
{
    if n == 0 {
        round
    } else {
        advanced(advanced_times(round, (n - 1) as nat))
    }
}

/// A read that must fetch asks the replicas one by one, in order: after `n`
/// replicas answered without the value it asks replica `n`, and it reports
/// that no replica holds the key only once every replica was asked.
pub proof fn law_read_asks_every_replica_in_turn(pre: NodeView, key: Seq<u8>, n: nat)
    requires
        n <= fetch_round(pre, key).peers.len(),
    ensures
        ({
            let r0 = fetch_round(pre, key);
            let r = advanced_times(r0, n);
            &&& r.next == n
            &&& r.peers == r0.peers
            &&& r.key == key
            &&& n < r0.peers.len() ==> next_request(r) == ReadActionView::Ask {
                peer: r0.peers[n as int],
                request: MessageView::ReadRequest { key },
            }
            &&& n == r0.peers.len() ==> next_request(r) == ReadActionView::Finished(
                Err(ErrorView::ValueNotFound(key)),
            )
        }),
    decreases n,
{
    if n > 0 {
        law_read_asks_every_replica_in_turn(pre, key, (n - 1) as nat);
    }
}

/// A read gives up with "not found" only when every replica of its round was
/// asked; otherwise it asks the next replica and moves on by exactly one.
pub proof fn law_read_gives_up_only_after_all(round: ReadRoundView)
    requires
        0 <= round.next,
    ensures
        next_request(round) is Finished ==> round.next >= round.peers.len(),
        round.next < round.peers.len() ==> advanced(round).next == round.next + 1
            && advanced(round).peers == round.peers && advanced(round).key == round.key,
{
}

/// A key's hash is the sum of its bytes, each read as an unsigned value from
/// 0 to 255, modulo 2^64: adding a byte to the end of a key adds it to the
/// hash.
pub proof fn law_key_hash_sums_bytes(key: Seq<u8>, b: u8)
    ensures
        key_hash(Seq::<u8>::empty()) == 0,
        key_hash(key.push(b)) as int == (key_hash(key) as int + b as int) % 0x1_0000_0000_0000_0000,
        key_hash(key) as int == key.fold_left(0int, |acc: int, x: u8| acc + x as int)
            % 0x1_0000_0000_0000_0000,
    decreases key.len(),
{
    assert(key.push(b).drop_last() =~= key);
    if key.len() > 0 {
        let init = key.drop_last();
        law_key_hash_sums_bytes(init, key.last());
        let f = |acc: int, x: u8| acc + x as int;
        let a = init.fold_left(0int, f);
        lemma_add_mod_noop(a, key.last() as int, 0x1_0000_0000_0000_0000);
        assert((key.last() as int) % 0x1_0000_0000_0000_0000 == key.last() as int);
    }
}

/// An invalidation clears only the copy of its own key: every other key's
/// copy is as it was.
pub proof fn law_invalidation_only_its_key(pre: NodeView, key: Seq<u8>, version: u64)
    ensures
        forall|k: Seq<u8>|
            k != key ==> (#[trigger] state_after(
                pre,
                MessageView::Invalidation { key, version },
            ).data.contains_key(k) <==> pre.data.contains_key(k)),
        forall|k: Seq<u8>|
            k != key && pre.data.contains_key(k) ==> #[trigger] state_after(
                pre,
                MessageView::Invalidation { key, version },
            ).data[k] == pre.data[k],
{
}

/// A join response records each listed member: afterwards the record of a
/// listed identity is the last listed record with that identity, and the
/// record of every other identity is as it was.
pub proof fn law_join_response_records_listed(pre: NodeView, ms: Seq<NodeInfoView>, id: NodeId)
    ensures
        ({
            let post = state_after(pre, MessageView::JoinResponse(ms));
            &&& (forall|j: int| 0 <= j < ms.len() ==> ms[j].id != id) ==> lookup(post.members, id)
                == lookup(pre.members, id)
            &&& forall|j: int|
                0 <= j < ms.len() && #[trigger] ms[j].id == id && (forall|j2: int|
                    j < j2 < ms.len() ==> ms[j2].id != id) ==> lookup(post.members, id) == Some(ms[j])
            &&& response_to(pre, MessageView::JoinResponse(ms)) is None
        }),
{
    lemma_upsert_all_lookup(pre.members, ms, id);
}

} // verus!
