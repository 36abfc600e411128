//! Digests of byte strings.

use sha2::Digest;
use vstd::prelude::*;

verus! {

/// Whether `c` is a hexadecimal digit in lower case.
pub open spec fn hex_digit(c: char) -> bool {
    '0' <= c <= '9' || 'a' <= c <= 'f'
}

/// The SHA-256 digest of some bytes, in hexadecimal.
pub uninterp spec fn sha256_hex(bytes: Seq<u8>) -> Seq<char>;

/// `Sha256::digest`, shown in lower case hexadecimal: 64 digits that depend on the bytes alone.
#[verifier::external_body]
fn sha2_hex(bytes: &[u8]) -> (out: String)
    ensures
        out@ == sha256_hex(bytes@),
        out@.len() == 64,
        forall|i: int| 0 <= i < 64 ==> hex_digit(#[trigger] out@[i]),
{
    format!("{:x}", sha2::Sha256::digest(bytes))
}

/// The SHA-256 digest of some bytes, in hexadecimal.
pub fn digest_text(bytes: &[u8]) -> (out: String)
    ensures
        out@ == sha256_hex(bytes@),
        out@.len() == 64,
        forall|i: int| 0 <= i < 64 ==> hex_digit(#[trigger] out@[i]),
{
    sha2_hex(bytes)
}

} // verus!
