//! Write versions: the high 16 bits name the node that issued the version,
//! the low 48 bits count the versions it issued. Two versions differ when
//! they come from nodes whose identities differ in their low 16 bits, or from
//! counter values that differ in their low 48 bits; nodes whose identities
//! agree in the low 16 bits can issue equal versions.
use crate::types::NodeId;
use vstd::prelude::*;

verus! {

/// 2^48, the span of the counter part of a version.
pub open spec fn counter_span() -> int {
    0x1_0000_0000_0000
}

/// The version a node issues from its counter: the low 16 bits of the node's
/// identity above the low 48 bits of the counter.
pub open spec fn version_of(id: NodeId, counter: u64) -> u64 {
    ((id.0 as int % 0x10000) * counter_span() + counter as int % counter_span()) as u64
}

/// The node part (high 16 bits) of a version.
pub open spec fn node_part(v: u64) -> int {
    v as int / counter_span()
}

/// The counter part (low 48 bits) of a version.
pub open spec fn counter_part(v: u64) -> int {
    v as int % counter_span()
}

/// Builds the version that a node with identity `id` issues when its counter
/// stands at `counter`.
pub fn compose_version(id: NodeId, counter: u64) -> (v: u64)
    ensures
        v == version_of(id, counter),
{
    let raw: u128 = id.0;
    let node_hash: u64 = raw as u64;
    let v: u64 = ((node_hash & 0xFFFF) << 48u64) | (counter & 0xFFFF_FFFF_FFFF);
    assert(v == ((raw % 0x10000) * 0x1_0000_0000_0000 + counter % 0x1_0000_0000_0000) as u64)
        by (bit_vector)
        requires
            node_hash == raw as u64,
            v == ((node_hash & 0xFFFF) << 48u64) | (counter & 0xFFFF_FFFF_FFFF),
    ;
    v
}

/// A version is made of its node part and its counter part: the node part is
/// the low 16 bits of the issuing node's identity, the counter part the low 48
/// bits of the counter.
pub proof fn lemma_version_parts(id: NodeId, counter: u64)
    ensures
        node_part(version_of(id, counter)) == id.0 as int % 0x10000,
        counter_part(version_of(id, counter)) == counter as int % counter_span(),
        version_of(id, counter) as int == (id.0 as int % 0x10000) * counter_span() + counter as int
            % counter_span(),
{
    let h = id.0 as int % 0x10000;
    let l = counter as int % counter_span();
    assert(0 <= h < 0x10000);
    assert(0 <= l < counter_span());
    assert(0 <= h * counter_span() + l < 0x1_0000_0000_0000_0000) by (nonlinear_arith)
        requires
            0 <= h < 0x10000,
            0 <= l < 0x1_0000_0000_0000,
    ;
    assert((h * counter_span() + l) / counter_span() == h) by (nonlinear_arith)
        requires
            0 <= l < 0x1_0000_0000_0000,
            counter_span() == 0x1_0000_0000_0000,
    ;
    assert((h * counter_span() + l) % counter_span() == l) by (nonlinear_arith)
        requires
            0 <= l < 0x1_0000_0000_0000,
            counter_span() == 0x1_0000_0000_0000,
    ;
}

/// Two versions that a node issues one after the other (its counter moved on
/// by one, wrapping) have the same node part, and unless the counter part had
/// reached its largest value the second is the first plus one, so it is the
/// larger.
pub proof fn lemma_consecutive_versions(id: NodeId, counter: u64)
    ensures
        ({
            let v1 = version_of(id, counter);
            let v2 = version_of(id, counter.wrapping_add(1));
            &&& node_part(v2) == node_part(v1)
            &&& counter_part(v1) < counter_span() - 1 ==> v2 as int == v1 as int + 1
            &&& counter_part(v1) < counter_span() - 1 ==> counter_part(v2) == counter_part(v1) + 1
        }),
{
    let next = counter.wrapping_add(1);
    lemma_version_parts(id, counter);
    lemma_version_parts(id, next);
    if counter as int % counter_span() < counter_span() - 1 {
        assert(counter < u64::MAX);
        assert(next == counter + 1);
        assert((counter as int + 1) % counter_span() == counter as int % counter_span() + 1);
    }
}

/// Versions issued from different node parts or different counter parts are
/// different.
pub proof fn law_versions_distinct(id1: NodeId, c1: u64, id2: NodeId, c2: u64)
    requires
        id1.0 as int % 0x10000 != id2.0 as int % 0x10000 || c1 as int % counter_span() != c2 as int
            % counter_span(),
    ensures
        version_of(id1, c1) != version_of(id2, c2),
{
    lemma_version_parts(id1, c1);
    lemma_version_parts(id2, c2);
}

} // verus!
