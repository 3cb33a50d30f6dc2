//! Short printable identifiers for public keys.
use vstd::prelude::*;

verus! {

/// The lower-case hexadecimal digit for `n` (`n` below 16).
pub open spec fn hex_digit(n: int) -> char {
    seq!['0', '1', '2', '3', '4', '5', '6', '7', '8', '9', 'a', 'b', 'c', 'd', 'e', 'f'][n]
}

/// Each byte as two lower-case hexadecimal digits, high digit first.
pub open spec fn spec_hex_lower(bytes: Seq<u8>) -> Seq<char>
    decreases bytes.len(),
{
    if bytes.len() == 0 {
        Seq::empty()
    } else {
        spec_hex_lower(bytes.drop_last()) + seq![
            hex_digit(bytes.last() as int / 16),
            hex_digit(bytes.last() as int % 16),
        ]
    }
}

/// Calls `hex::encode`. Trusted: its documentation and source give each byte
/// as two lower-case hexadecimal digits, high digit first.
#[verifier::external_body]
fn hex_encode(bytes: &[u8]) -> (s: String)
    ensures
        s@ == spec_hex_lower(bytes@),
{
    hex::encode(bytes)
}

/// The first four bytes of a key in hexadecimal, as shown in listings.
pub fn short_id(key: &[u8; 32]) -> (s: String)
    ensures
        s@ == spec_hex_lower(key@.take(4)),
{
    let prefix: [u8; 4] = [key[0], key[1], key[2], key[3]];
    assert(prefix@ =~= key@.take(4));
    hex_encode(prefix.as_slice())
}

} // verus!
