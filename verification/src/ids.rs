//! Node identities: fresh random UUIDs and their text form.
use crate::types::NodeId;
use vstd::prelude::*;

verus! {

/// A 128-bit value carries the marks of a random (version 4, RFC 4122
/// variant) UUID: the version nibble is 4 and the two variant bits are `10`.
pub open spec fn is_random_uuid(v: u128) -> bool {
    &&& (v >> 76u128) & 0xfu128 == 4
    &&& (v >> 62u128) & 3u128 == 2
}

/// `uuid::Uuid::new_v4`, read as a big-endian 128-bit value with `as_u128`.
/// The value is random; the contract claims only the version and variant
/// bits that `new_v4` sets on every value it returns.
#[verifier::external_body]
fn random_uuid_value() -> (v: u128)
    ensures
        is_random_uuid(v),
{
    uuid::Uuid::new_v4().as_u128()
}

impl NodeId {
    /// A fresh identity, drawn at random.
    pub fn new() -> (id: NodeId)
        ensures
            is_random_uuid(id.0),
    {
        NodeId(random_uuid_value())
    }
}

impl Default for NodeId {
    fn default() -> (id: NodeId)
        ensures
            is_random_uuid(id.0),
    {
        NodeId::new()
    }
}

/// The lower-case hexadecimal digit of a value below 16.
pub open spec fn hex_digit(n: int) -> char {
    if n < 10 {
        (48 + n) as char
    } else {
        (87 + n) as char
    }
}

/// The `k`-th hexadecimal digit of `v`, counted from the most significant.
pub open spec fn nibble(v: u128, k: int) -> int {
    ((v >> ((124 - 4 * k) as u128)) & 0xfu128) as int
}

/// Which digit of the 32 stands at position `i` of the hyphenated text.
pub open spec fn digit_index(i: int) -> int {
    if i < 8 {
        i
    } else if i < 13 {
        i - 1
    } else if i < 18 {
        i - 2
    } else if i < 23 {
        i - 3
    } else {
        i - 4
    }
}

/// The hyphenated lower-case text of a UUID value, as in
/// `67e55044-10b1-426f-9247-bb680e5fe0c8`: 32 hexadecimal digits, most
/// significant first, in groups of 8, 4, 4, 4 and 12 joined by `-`.
pub open spec fn uuid_text(v: u128) -> Seq<char> {
    Seq::new(
        36,
        |i: int|
            if i == 8 || i == 13 || i == 18 || i == 23 {
                '-'
            } else {
                hex_digit(nibble(v, digit_index(i)))
            },
    )
}

/// `uuid::Uuid::from_u128(v).to_string()`: the `Display` form of the UUID,
/// which its source writes as the hyphenated lower-case hexadecimal text.
#[verifier::external_body]
pub(crate) fn uuid_string(v: u128) -> (s: String)
    ensures
        s@ == uuid_text(v),
{
    uuid::Uuid::from_u128(v).to_string()
}

} // verus!
