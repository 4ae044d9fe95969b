//! The member table of a node: one record per known node, kept in the order
//! of the nodes' identities, and the choice of a key's coordinator.
use crate::types::{infos_view, NodeId, NodeInfo, NodeInfoView, NodeState};
use vstd::prelude::*;

verus! {

/// The records are in strictly increasing order of identity, so no identity
/// occurs twice.
pub open spec fn sorted_by_id(s: Seq<NodeInfoView>) -> bool {
    forall|i: int, j: int| 0 <= i < j < s.len() ==> s[i].id.0 < s[j].id.0
}

/// The record of `id` in a table, if there is one.
pub open spec fn lookup(s: Seq<NodeInfoView>, id: NodeId) -> Option<NodeInfoView>
    decreases s.len(),
{
    if s.len() == 0 {
        None
    } else if s[0].id == id {
        Some(s[0])
    } else {
        lookup(s.drop_first(), id)
    }
}

/// The table after `n` is recorded: `n` replaces the record with its identity,
/// or stands at its place in the order of identities.
pub open spec fn upsert(s: Seq<NodeInfoView>, n: NodeInfoView) -> Seq<NodeInfoView>
    decreases s.len(),
{
    if s.len() == 0 {
        seq![n]
    } else if s[0].id == n.id {
        seq![n] + s.drop_first()
    } else if n.id.0 < s[0].id.0 {
        seq![n] + s
    } else {
        seq![s[0]] + upsert(s.drop_first(), n)
    }
}

/// The table after each record of `ms` is recorded, in order.
pub open spec fn upsert_all(s: Seq<NodeInfoView>, ms: Seq<NodeInfoView>) -> Seq<NodeInfoView>
    decreases ms.len(),
{
    if ms.len() == 0 {
        s
    } else {
        upsert(upsert_all(s, ms.drop_last()), ms.last())
    }
}

/// The table after the record of `id`, if any, takes the state `state`.
pub open spec fn with_state(s: Seq<NodeInfoView>, id: NodeId, state: NodeState) -> Seq<
    NodeInfoView,
> {
    s.map_values(
        |m: NodeInfoView|
            if m.id == id {
                NodeInfoView { id: m.id, address: m.address, role: m.role, state }
            } else {
                m
            },
    )
}

/// The identities of the active members, in table order.
pub open spec fn active_ids(s: Seq<NodeInfoView>) -> Seq<NodeId>
    decreases s.len(),
{
    if s.len() == 0 {
        seq![]
    } else if s.last().state == NodeState::Active {
        active_ids(s.drop_last()).push(s.last().id)
    } else {
        active_ids(s.drop_last())
    }
}

/// The active members other than `me`, in table order.
pub open spec fn peers(s: Seq<NodeInfoView>, me: NodeId) -> Seq<NodeInfoView>
    decreases s.len(),
{
    if s.len() == 0 {
        seq![]
    } else if s.last().state == NodeState::Active && s.last().id != me {
        peers(s.drop_last(), me).push(s.last())
    } else {
        peers(s.drop_last(), me)
    }
}

/// The hash of a key: the sum of its bytes, wrapping at 2^64.
pub open spec fn key_hash(key: Seq<u8>) -> u64
    decreases key.len(),
{
    if key.len() == 0 {
        0
    } else {
        ((key_hash(key.drop_last()) as int + key.last() as int) % 0x1_0000_0000_0000_0000) as u64
    }
}

/// The coordinator of a key: among the active members in order of identity,
/// the one at the key's hash modulo their number; none if no member is active.
pub open spec fn coordinator(s: Seq<NodeInfoView>, key: Seq<u8>) -> Option<NodeId> {
    let a = active_ids(s);
    if a.len() == 0 {
        None
    } else {
        Some(a[(key_hash(key) as usize) as int % (a.len() as int)])
    }
}

/// Computes the hash of a key.
pub fn hash_key(key: &[u8]) -> (h: u64)
    ensures
        h == key_hash(key@),
{
    let mut h: u64 = 0;
    let mut i: usize = 0;
    while i < key.len()
        invariant
            i <= key.len(),
            h == key_hash(key@.take(i as int)),
        decreases key.len() - i,
    {
        let b: u8 = key[i];
        assert(key@.take(i + 1).drop_last() =~= key@.take(i as int));
        h = h.wrapping_add(b as u64);
        i = i + 1;
    }
    assert(key@.take(key.len() as int) =~= key@);
    h
}

/// A node's member table.
pub struct Membership {
    entries: Vec<NodeInfo>,
}

impl View for Membership {
    type V = Seq<NodeInfoView>;

    closed spec fn view(&self) -> Seq<NodeInfoView> {
        infos_view(self.entries@)
    }
}

proof fn lemma_upsert_members(s: Seq<NodeInfoView>, n: NodeInfoView)
    ensures
        forall|i: int|
            0 <= i < upsert(s, n).len() ==> upsert(s, n)[i] == n || s.contains(
                #[trigger] upsert(s, n)[i],
            ),
    decreases s.len(),
{
    let u = upsert(s, n);
    if s.len() > 0 && s[0].id != n.id && !(n.id.0 < s[0].id.0) {
        let rest = s.drop_first();
        lemma_upsert_members(rest, n);
        assert forall|i: int| 0 <= i < u.len() implies u[i] == n || s.contains(#[trigger] u[i]) by {
            if i == 0 {
                assert(s[0] == u[0]);
            } else {
                assert(u[i] == upsert(rest, n)[i - 1]);
                if u[i] != n {
                    let j = choose|j: int| 0 <= j < rest.len() && rest[j] == u[i];
                    assert(s[j + 1] == u[i]);
                }
            }
        }
    } else if s.len() > 0 && s[0].id == n.id {
        assert forall|i: int| 0 <= i < u.len() implies u[i] == n || s.contains(#[trigger] u[i]) by {
            if i > 0 {
                assert(s[i] == u[i]);
            }
        }
    } else if s.len() > 0 {
        assert forall|i: int| 0 <= i < u.len() implies u[i] == n || s.contains(#[trigger] u[i]) by {
            if i > 0 {
                assert(s[i - 1] == u[i]);
            }
        }
    }
}

/// Recording a member keeps the table in order of identity.
pub proof fn lemma_upsert_sorted(s: Seq<NodeInfoView>, n: NodeInfoView)
    requires
        sorted_by_id(s),
    ensures
        sorted_by_id(upsert(s, n)),
    decreases s.len(),
{
    if s.len() > 0 && s[0].id != n.id && !(n.id.0 < s[0].id.0) {
        let rest = s.drop_first();
        lemma_upsert_sorted(rest, n);
        lemma_upsert_members(rest, n);
        let r = upsert(rest, n);
        let u = upsert(s, n);
        assert forall|i: int, j: int| 0 <= i < j < u.len() implies u[i].id.0 < u[j].id.0 by {
            if i == 0 {
                assert(u[j] == r[j - 1]);
                if r[j - 1] != n {
                    let k = choose|k: int| 0 <= k < rest.len() && rest[k] == r[j - 1];
                    assert(s[k + 1] == rest[k]);
                }
            } else {
                assert(u[i] == r[i - 1]);
                assert(u[j] == r[j - 1]);
            }
        }
    }
}

/// Recording `n` gives `n` as the record of its identity and leaves every
/// other identity's record as it was.
pub proof fn lemma_upsert_lookup(s: Seq<NodeInfoView>, n: NodeInfoView, id: NodeId)
    ensures
        lookup(upsert(s, n), id) == (if id == n.id {
            Some(n)
        } else {
            lookup(s, id)
        }),
    decreases s.len(),
{
    let u = upsert(s, n);
    if s.len() == 0 {
        assert(u[0] == n);
        assert(u.drop_first() =~= Seq::<NodeInfoView>::empty());
        assert(lookup(u.drop_first(), id) is None);
    } else if s[0].id == n.id {
        assert(u[0] == n);
        assert(u.drop_first() =~= s.drop_first());
        if id != n.id {
            assert(lookup(u, id) == lookup(u.drop_first(), id));
            assert(lookup(s, id) == lookup(s.drop_first(), id));
        }
    } else if n.id.0 < s[0].id.0 {
        assert(u[0] == n);
        assert(u.drop_first() =~= s);
        if id != n.id {
            assert(lookup(u, id) == lookup(u.drop_first(), id));
        }
    } else {
        assert(u[0] == s[0]);
        lemma_upsert_lookup(s.drop_first(), n, id);
        assert(u.drop_first() =~= upsert(s.drop_first(), n));
        if id != s[0].id {
            assert(lookup(u, id) == lookup(u.drop_first(), id));
            assert(lookup(s, id) == lookup(s.drop_first(), id));
        }
    }
}

/// In an ordered table, recording `n` puts it at position `i`, the first
/// whose identity is not below `n`'s, replacing the record there if it has
/// `n`'s identity.
proof fn lemma_upsert_at(s: Seq<NodeInfoView>, n: NodeInfoView, i: int)
    requires
        sorted_by_id(s),
        0 <= i <= s.len(),
        forall|j: int| 0 <= j < i ==> s[j].id.0 < n.id.0,
        i < s.len() ==> n.id.0 <= s[i].id.0,
    ensures
        upsert(s, n) == (if i < s.len() && s[i].id == n.id {
            s.update(i, n)
        } else {
            s.insert(i, n)
        }),
    decreases s.len(),
{
    if i == 0 {
        if s.len() == 0 {
            assert(s.insert(0, n) =~= seq![n]);
        } else if s[0].id == n.id {
            assert(s.update(0, n) =~= seq![n] + s.drop_first());
        } else {
            assert(s.insert(0, n) =~= seq![n] + s);
        }
    } else {
        let rest = s.drop_first();
        lemma_upsert_at(rest, n, i - 1);
        if i < s.len() && s[i].id == n.id {
            assert(s.update(i, n) =~= seq![s[0]] + rest.update(i - 1, n));
        } else {
            assert(s.insert(i, n) =~= seq![s[0]] + rest.insert(i - 1, n));
        }
    }
}

/// The record of `id` in an ordered table stands at the position of the first
/// identity that is not below `id`, if that identity is `id`.
proof fn lemma_lookup_at(s: Seq<NodeInfoView>, id: NodeId, i: int)
    requires
        sorted_by_id(s),
        0 <= i <= s.len(),
        forall|j: int| 0 <= j < i ==> s[j].id.0 < id.0,
        i < s.len() ==> id.0 <= s[i].id.0,
    ensures
        lookup(s, id) == (if i < s.len() && s[i].id == id {
            Some(s[i])
        } else {
            None
        }),
    decreases s.len(),
{
    if s.len() > 0 && i > 0 {
        lemma_lookup_at(s.drop_first(), id, i - 1);
    } else if s.len() > 0 && s[0].id != id {
        lemma_lookup_absent(s.drop_first(), id);
    }
}

proof fn lemma_lookup_absent(s: Seq<NodeInfoView>, id: NodeId)
    requires
        sorted_by_id(s),
        s.len() > 0 ==> id.0 < s[0].id.0,
    ensures
        lookup(s, id) is None,
    decreases s.len(),
{
    if s.len() > 0 {
        lemma_lookup_absent(s.drop_first(), id);
    }
}

/// In an ordered table, the record at a position is the record of its
/// identity.
pub proof fn lemma_lookup_index(s: Seq<NodeInfoView>, i: int)
    requires
        sorted_by_id(s),
        0 <= i < s.len(),
    ensures
        lookup(s, s[i].id) == Some(s[i]),
    decreases s.len(),
{
    if i > 0 {
        assert(s[0].id.0 < s[i].id.0);
        lemma_lookup_index(s.drop_first(), i - 1);
    }
}

/// A table without a record of an identity gives it none.
pub proof fn lemma_lookup_missing(s: Seq<NodeInfoView>, id: NodeId)
    requires
        forall|i: int| 0 <= i < s.len() ==> s[i].id != id,
    ensures
        lookup(s, id) is None,
    decreases s.len(),
{
    if s.len() > 0 {
        assert forall|i: int| 0 <= i < s.drop_first().len() implies s.drop_first()[i].id != id by {
            assert(s.drop_first()[i] == s[i + 1]);
        }
        lemma_lookup_missing(s.drop_first(), id);
    }
}

/// The active identities are those of the active records.
pub proof fn lemma_active_ids_contains(s: Seq<NodeInfoView>, id: NodeId)
    ensures
        active_ids(s).contains(id) <==> exists|i: int|
            0 <= i < s.len() && #[trigger] s[i].id == id && s[i].state == NodeState::Active,
    decreases s.len(),
{
    if s.len() > 0 {
        let init = s.drop_last();
        lemma_active_ids_contains(init, id);
        if active_ids(s).contains(id) {
            if s.last().state == NodeState::Active && s.last().id == id {
                assert(s[s.len() - 1].id == id);
            } else {
                if s.last().state == NodeState::Active {
                    let k = choose|k: int| 0 <= k < active_ids(s).len() && active_ids(s)[k] == id;
                    assert(active_ids(init)[k] == id);
                }
                let i = choose|i: int|
                    0 <= i < init.len() && #[trigger] init[i].id == id && init[i].state
                        == NodeState::Active;
                assert(s[i] == init[i]);
            }
        }
        if exists|i: int| 0 <= i < s.len() && #[trigger] s[i].id == id && s[i].state == NodeState::Active {
            let i = choose|i: int|
                0 <= i < s.len() && #[trigger] s[i].id == id && s[i].state == NodeState::Active;
            if i == s.len() - 1 {
                assert(active_ids(s).last() == id);
            } else {
                assert(init[i] == s[i]);
                assert(active_ids(init).contains(id));
                if s.last().state == NodeState::Active {
                    let k = choose|k: int| 0 <= k < active_ids(init).len() && active_ids(init)[k] == id;
                    assert(active_ids(s)[k] == id);
                }
            }
        }
    }
}

/// The replicas of a cluster are its active members: in an ordered table an
/// identity is among the active identities exactly when its record is active.
pub proof fn lemma_active_iff_record_active(s: Seq<NodeInfoView>, id: NodeId)
    requires
        sorted_by_id(s),
    ensures
        active_ids(s).contains(id) <==> (lookup(s, id) matches Some(m) && m.state
            == NodeState::Active),
{
    lemma_active_ids_contains(s, id);
    if exists|i: int| 0 <= i < s.len() && #[trigger] s[i].id == id {
        let i = choose|i: int| 0 <= i < s.len() && #[trigger] s[i].id == id;
        lemma_lookup_index(s, i);
        if active_ids(s).contains(id) {
            let j = choose|j: int|
                0 <= j < s.len() && #[trigger] s[j].id == id && s[j].state == NodeState::Active;
            if j != i {
                if j < i {
                    assert(s[j].id.0 < s[i].id.0);
                } else {
                    assert(s[i].id.0 < s[j].id.0);
                }
            }
        }
    } else {
        lemma_lookup_missing(s, id);
    }
}

/// Setting the state of a record changes that record's state and no other
/// record.
pub proof fn lemma_with_state_lookup(s: Seq<NodeInfoView>, id: NodeId, state: NodeState, other: NodeId)
    ensures
        lookup(with_state(s, id, state), other) == (match lookup(s, other) {
            Some(m) => if other == id {
                Some(NodeInfoView { id: m.id, address: m.address, role: m.role, state })
            } else {
                Some(m)
            },
            None => None,
        }),
    decreases s.len(),
{
    if s.len() > 0 {
        lemma_with_state_lookup(s.drop_first(), id, state, other);
        assert(with_state(s, id, state).drop_first() =~= with_state(s.drop_first(), id, state));
    }
}

/// A record is among the peers of `me` exactly when the table holds it, it
/// is active and it is not `me`'s.
pub proof fn lemma_peers_contains(s: Seq<NodeInfoView>, me: NodeId, m: NodeInfoView)
    ensures
        peers(s, me).contains(m) <==> (s.contains(m) && m.id != me && m.state
            == NodeState::Active),
    decreases s.len(),
{
    if s.len() > 0 {
        let init = s.drop_last();
        let x = s.last();
        lemma_peers_contains(init, me, m);
        let p0 = peers(init, me);
        assert(s =~= init.push(x));
        if x.state == NodeState::Active && x.id != me {
            assert(peers(s, me) == p0.push(x));
            if p0.push(x).contains(m) && m != x {
                let k = choose|k: int| 0 <= k < p0.push(x).len() && p0.push(x)[k] == m;
                assert(p0[k] == m);
            }
            if p0.contains(m) {
                let k = choose|k: int| 0 <= k < p0.len() && p0[k] == m;
                assert(p0.push(x)[k] == m);
            }
            if m == x {
                assert(p0.push(x)[p0.len() as int] == m);
            }
        }
        if s.contains(m) && m != x {
            let k = choose|k: int| 0 <= k < s.len() && s[k] == m;
            assert(init[k] == m);
        }
        if init.contains(m) {
            let k = choose|k: int| 0 <= k < init.len() && init[k] == m;
            assert(s[k] == m);
        }
        if m == x {
            assert(s[s.len() - 1] == m);
        }
    }
}

/// After the records `ms` are recorded in turn, the record of an identity is
/// the last of `ms` with that identity, or, if `ms` has none, what the table
/// held before.
pub proof fn lemma_upsert_all_lookup(s: Seq<NodeInfoView>, ms: Seq<NodeInfoView>, id: NodeId)
    ensures
        (forall|j: int| 0 <= j < ms.len() ==> ms[j].id != id) ==> lookup(upsert_all(s, ms), id)
            == lookup(s, id),
        forall|j: int|
            0 <= j < ms.len() && #[trigger] ms[j].id == id && (forall|j2: int|
                j < j2 < ms.len() ==> ms[j2].id != id) ==> lookup(upsert_all(s, ms), id) == Some(
                ms[j],
            ),
    decreases ms.len(),
{
    if ms.len() > 0 {
        let init = ms.drop_last();
        lemma_upsert_all_lookup(s, init, id);
        lemma_upsert_lookup(upsert_all(s, init), ms.last(), id);
        if forall|j: int| 0 <= j < ms.len() ==> ms[j].id != id {
            assert forall|j: int| 0 <= j < init.len() implies init[j].id != id by {
                assert(init[j] == ms[j]);
            }
            assert(ms[ms.len() - 1].id != id);
        }
        assert forall|j: int|
            0 <= j < ms.len() && #[trigger] ms[j].id == id && (forall|j2: int|
                j < j2 < ms.len() ==> ms[j2].id != id) implies lookup(upsert_all(s, ms), id)
            == Some(ms[j]) by {
            if j < ms.len() - 1 {
                assert(ms[ms.len() - 1].id != id);
                assert(init[j] == ms[j]);
                assert forall|j2: int| j < j2 < init.len() implies init[j2].id != id by {
                    assert(init[j2] == ms[j2]);
                }
            }
        }
    }
}

impl Membership {
    /// The table is in order of identity.
    pub open spec fn well_formed(&self) -> bool {
        sorted_by_id(self@)
    }

    /// A table that holds one record.
    pub fn single(info: NodeInfo) -> (t: Membership)
        ensures
            t.well_formed(),
            t@ == seq![info@],
    {
        let mut entries: Vec<NodeInfo> = Vec::new();
        entries.push(info);
        let t = Membership { entries };
        assert(t@ =~= seq![t.entries@[0]@]);
        t
    }

    /// The number of records.
    pub fn len(&self) -> (n: usize)
        ensures
            n == self@.len(),
    {
        self.entries.len()
    }

    /// Where `id` stands, or would stand, in the order of identities.
    fn position(&self, id: NodeId) -> (i: usize)
        requires
            self.well_formed(),
        ensures
            i <= self@.len(),
            forall|j: int| 0 <= j < i ==> self@[j].id.0 < id.0,
            i < self@.len() ==> id.0 <= self@[i as int].id.0,
    {
        let mut i: usize = 0;
        while i < self.entries.len() && self.entries[i].id.0 < id.0
            invariant
                i <= self@.len(),
                self@.len() == self.entries@.len(),
                forall|j: int| 0 <= j < i ==> self@[j].id.0 < id.0,
            decreases self.entries.len() - i,
        {
            i = i + 1;
        }
        i
    }

    /// The record of `id`, if the table holds one.
    pub fn get(&self, id: NodeId) -> (r: Option<NodeInfo>)
        requires
            self.well_formed(),
        ensures
            match r {
                Some(m) => lookup(self@, id) == Some(m@),
                None => lookup(self@, id) is None,
            },
    {
        let i = self.position(id);
        proof {
            lemma_lookup_at(self@, id, i as int);
        }
        if i < self.entries.len() && self.entries[i].id == id {
            Some(self.entries[i].clone())
        } else {
            None
        }
    }

    /// Records `info`, replacing the record with its identity if there is one.
    pub fn insert(&mut self, info: NodeInfo)
        requires
            old(self).well_formed(),
        ensures
            final(self).well_formed(),
            final(self)@ == upsert(old(self)@, info@),
    {
        let i = self.position(info.id);
        let ghost s = self@;
        let ghost n = info@;
        proof {
            lemma_upsert_at(s, n, i as int);
            lemma_upsert_sorted(s, n);
        }
        if i < self.entries.len() && self.entries[i].id == info.id {
            self.entries.set(i, info);
            assert(self@ =~= s.update(i as int, n));
        } else {
            self.entries.insert(i, info);
            assert(self@ =~= s.insert(i as int, n));
        }
    }

    /// Records each of `infos`, in order.
    pub fn insert_all(&mut self, infos: Vec<NodeInfo>)
        requires
            old(self).well_formed(),
        ensures
            final(self).well_formed(),
            final(self)@ == upsert_all(old(self)@, infos_view(infos@)),
    {
        let ghost s0 = self@;
        let ghost ms = infos_view(infos@);
        let mut rest = infos;
        let mut done: Vec<NodeInfo> = Vec::new();
        let mut i: usize = 0;
        let n = rest.len();
        while i < n
            invariant
                n == infos_view(infos@).len(),
                i <= n,
                ms == infos_view(infos@),
                self.well_formed(),
                self@ == upsert_all(s0, ms.take(i as int)),
                rest@.len() == n,
                infos_view(rest@) == ms,
            decreases n - i,
        {
            let m = rest[i].clone();
            assert(ms.take(i + 1).drop_last() =~= ms.take(i as int));
            self.insert(m);
            i = i + 1;
        }
        assert(ms.take(n as int) =~= ms);
    }

    /// Gives the record of `id`, if there is one, the state `state`.
    pub fn set_state(&mut self, id: NodeId, state: NodeState)
        requires
            old(self).well_formed(),
        ensures
            final(self).well_formed(),
            final(self)@ == with_state(old(self)@, id, state),
    {
        let i = self.position(id);
        let ghost s = self@;
        if i < self.entries.len() && self.entries[i].id == id {
            let old_info = self.entries[i].clone();
            let info = NodeInfo {
                id: old_info.id,
                address: old_info.address,
                role: old_info.role,
                state,
            };
            self.entries.set(i, info);
            assert(self@ =~= with_state(s, id, state)) by {
                assert forall|j: int| 0 <= j < s.len() && j != i implies s[j].id != id by {
                    if j < i {
                        assert(s[j].id.0 < s[i as int].id.0);
                    } else {
                        assert(s[i as int].id.0 < s[j].id.0);
                    }
                }
            }
        } else {
            assert(self@ =~= with_state(s, id, state)) by {
                assert forall|j: int| 0 <= j < s.len() implies s[j].id != id by {
                    if j < i {
                    } else {
                        assert(s[i as int].id.0 <= s[j].id.0);
                    }
                }
            }
        }
    }

    /// The identities of the active members, in order of identity.
    pub fn active_ids(&self) -> (ids: Vec<NodeId>)
        ensures
            ids@ == active_ids(self@),
    {
        let mut ids: Vec<NodeId> = Vec::new();
        let mut i: usize = 0;
        while i < self.entries.len()
            invariant
                i <= self.entries@.len(),
                self@.len() == self.entries@.len(),
                ids@ == active_ids(self@.take(i as int)),
            decreases self.entries.len() - i,
        {
            assert(self@.take(i + 1).drop_last() =~= self@.take(i as int));
            if self.entries[i].state == NodeState::Active {
                ids.push(self.entries[i].id);
            }
            i = i + 1;
        }
        assert(self@.take(self.entries.len() as int) =~= self@);
        ids
    }

    /// The records of the active members other than `me`, in order of identity.
    pub fn peers(&self, me: NodeId) -> (ps: Vec<NodeInfo>)
        ensures
            infos_view(ps@) == peers(self@, me),
    {
        let mut ps: Vec<NodeInfo> = Vec::new();
        let mut i: usize = 0;
        while i < self.entries.len()
            invariant
                i <= self.entries@.len(),
                self@.len() == self.entries@.len(),
                infos_view(ps@) == peers(self@.take(i as int), me),
            decreases self.entries.len() - i,
        {
            assert(self@.take(i + 1).drop_last() =~= self@.take(i as int));
            if self.entries[i].state == NodeState::Active && self.entries[i].id != me {
                let m = self.entries[i].clone();
                ps.push(m);
                assert(infos_view(ps@) =~= peers(self@.take(i as int), me).push(self@[i as int]));
            }
            i = i + 1;
        }
        assert(self@.take(self.entries.len() as int) =~= self@);
        ps
    }

    /// A copy of every record, in order of identity.
    pub fn to_vec(&self) -> (all: Vec<NodeInfo>)
        ensures
            infos_view(all@) == self@,
    {
        let mut all: Vec<NodeInfo> = Vec::new();
        let mut i: usize = 0;
        while i < self.entries.len()
            invariant
                i <= self.entries@.len(),
                self@.len() == self.entries@.len(),
                infos_view(all@) == self@.take(i as int),
            decreases self.entries.len() - i,
        {
            let m = self.entries[i].clone();
            let ghost prev = infos_view(all@);
            all.push(m);
            assert(infos_view(all@) =~= prev.push(self@[i as int]));
            assert(self@.take(i + 1) =~= self@.take(i as int).push(self@[i as int]));
            i = i + 1;
        }
        assert(self@.take(self.entries.len() as int) =~= self@);
        all
    }

    /// The coordinator of `key`: the active member at the key's hash modulo
    /// the number of active members, in order of identity.
    pub fn coordinator(&self, key: &[u8]) -> (c: Option<NodeId>)
        ensures
            c == coordinator(self@, key@),
    {
        let h = hash_key(key);
        let ids = self.active_ids();
        if ids.len() == 0 {
            None
        } else {
            let k: usize = (h as usize) % ids.len();
            Some(ids[k])
        }
    }
}

} // verus!
