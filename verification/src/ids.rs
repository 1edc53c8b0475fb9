//! Identifiers. Every id of the project model is a random 128-bit UUID,
//! held here as its integer value.
use vstd::prelude::*;

verus! {

pub type NodeId = u128;

pub type PortId = u128;

pub type EdgeId = u128;

pub type TrackId = u128;

pub type ClipId = u128;

pub type NoteId = u128;

pub type AssetId = u128;

pub type PluginInstanceId = u128;

pub type AutomationLaneId = u128;

/// A fresh random (version 4) UUID, as its integer value.
///
/// Calls `uuid::Uuid::new_v4`. The value comes from the random source; of
/// it only the bits that `new_v4` sets are stated: version 4 and the
/// RFC 4122 variant.
#[verifier::external_body]
pub(crate) fn new_id() -> (id: u128)
    ensures
        (id >> 76u128) & 0xfu128 == 4,
        (id >> 62u128) & 0x3u128 == 2,
{
    uuid::Uuid::new_v4().as_u128()
}

/// Lower-case hexadecimal digit of `n` (0..=15).
pub open spec fn hex_digit(n: u128) -> char {
    if n < 10 {
        ((n + 48) as u8) as char
    } else {
        ((n + 87) as u8) as char
    }
}

/// Number of the hex digit shown at text position `i` of the hyphenated form.
pub open spec fn uuid_nibble_index(i: int) -> int {
    if i < 8 {
        i
    } else if i < 13 {
        i - 1
    } else if i < 18 {
        i - 2
    } else if i < 23 {
        i - 3
    } else {
        i - 4
    }
}

/// The hyphenated text of a UUID: 8-4-4-4-12 lower-case hex digits of the
/// 128-bit value, most significant digit first.
pub open spec fn uuid_text(id: u128) -> Seq<char> {
    Seq::new(
        36,
        |i: int|
            if i == 8 || i == 13 || i == 18 || i == 23 {
                '-'
            } else {
                hex_digit((id >> ((4 * (31 - uuid_nibble_index(i))) as u128)) & 15u128)
            },
    )
}

/// Text of an id, as `uuid::Uuid`'s `Display` writes it (hyphenated,
/// lower-case hex).
#[verifier::external_body]
pub(crate) fn id_to_string(id: u128) -> (s: String)
    ensures
        s@ == uuid_text(id),
{
    uuid::Uuid::from_u128(id).to_string()
}

} // verus!
