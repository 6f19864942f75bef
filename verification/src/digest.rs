//! BLAKE3 content digests, the deduplication keys of the history.

use vstd::prelude::*;

verus! {

/// The lowercase hexadecimal BLAKE3 digest of `data`.
pub uninterp spec fn blake3_hex(data: Seq<u8>) -> Seq<char>;

/// `s` is written in lowercase hexadecimal digits (`0`-`9`, `a`-`f`).
pub open spec fn is_lower_hex(s: Seq<char>) -> bool {
    forall|i: int| 0 <= i < s.len() ==> ('0' <= #[trigger] s[i] <= '9' || 'a' <= s[i] <= 'f')
}

/// Calls `blake3::hash` and `Hash::to_hex`. The contract claims that the
/// result is the digest of `data` (a function of the bytes alone) written as
/// 64 lowercase hexadecimal digits, as `to_hex` writes the 32-byte digest
/// with the table `0123456789abcdef`; it claims nothing else about the digest.
#[verifier::external_body]
pub(crate) fn blake3_hex_of(data: &[u8]) -> (r: String)
    ensures
        r@ == blake3_hex(data@),
        r@.len() == 64,
        is_lower_hex(r@),
{
    blake3::hash(data).to_hex().to_string()
}

} // verus!
