//! Identifiers are the 128-bit values of UUIDs; this is how one is written in messages.

use vstd::prelude::*;

use crate::crypto::hex_lower_spec;

verus! {

/// The sixteen bytes of an identifier, most significant first.
pub open spec fn uuid_bytes(id: u128) -> Seq<u8> {
    Seq::new(16, |i: int| ((id as int / vstd::arithmetic::power2::pow2((8 * (15 - i)) as nat) as int) % 256) as u8)
}

/// The hyphenated form: 32 lowercase hex digits grouped 8-4-4-4-12.
pub open spec fn uuid_text_spec(id: u128) -> Seq<char> {
    let h = hex_lower_spec(uuid_bytes(id));
    h.subrange(0, 8) + "-"@ + h.subrange(8, 12) + "-"@ + h.subrange(12, 16) + "-"@ + h.subrange(16, 20) + "-"@
        + h.subrange(20, 32)
}

/// `uuid::Uuid::from_u128(id).to_string()`: trusted to write the identifier in the hyphenated
/// lowercase form that the crate documents for `Display`.
#[verifier::external_body]
pub(crate) fn uuid_text(id: u128) -> (r: String)
    ensures
        r@ == uuid_text_spec(id),
{
    uuid::Uuid::from_u128(id).to_string()
}

} // verus!
