//! Payment-hash keys: parsing the hex form that callers hand in.
use vstd::prelude::*;

use crate::codec::hex_decode_chars;
use crate::codec::is_hex_digit_char;

verus! {

/// Whether a character sequence is the hex form of a payment hash:
/// exactly 64 hex digits, of either case.
pub open spec fn spec_hash_hex_ok(s: Seq<char>) -> bool {
    s.len() == 64 && forall|i: int| 0 <= i < 64 ==> is_hex_digit_char(#[trigger] s[i])
}

/// Relies on `bitcoin::hashes::sha256::Hash`'s `FromStr`: it accepts
/// exactly 64 hex digits of either case (anything else is an error) and
/// returns the 32 bytes they spell, most significant digit of each byte
/// first, in unchanged order (sha256 hashes are not displayed or parsed
/// byte-reversed).
#[verifier::external_body]
pub(crate) fn parse_payment_hash(s: &str) -> (r: Option<Vec<u8>>)
    ensures
        r is Some <==> spec_hash_hex_ok(s@),
        r matches Some(v) ==> v@ == hex_decode_chars(s@) && v@.len() == 32,
{
    match <bitcoin::hashes::sha256::Hash as core::str::FromStr>::from_str(s) {
        Ok(h) => Some(<bitcoin::hashes::sha256::Hash as bitcoin::hashes::Hash>::to_byte_array(h).to_vec()),
        Err(_) => None,
    }
}

} // verus!
