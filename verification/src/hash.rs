//! Content hashes: the SHA-256 digest of a payload in lowercase hexadecimal.
use vstd::prelude::*;

use sha2::Digest;

verus! {

/// The SHA-256 digest of a byte sequence.
pub uninterp spec fn sha256(data: Seq<u8>) -> Seq<u8>;

/// The hexadecimal digit for a value below sixteen, in lowercase.
pub open spec fn hex_digit(n: int) -> char {
    if n < 10 {
        (48 + n) as char
    } else {
        (87 + n) as char
    }
}

/// Each byte as two lowercase hexadecimal digits, high nibble first.
pub open spec fn hex_lower(data: Seq<u8>) -> Seq<char>
    decreases data.len(),
{
    if data.len() == 0 {
        Seq::empty()
    } else {
        seq![hex_digit(data[0] as int / 16), hex_digit(data[0] as int % 16)] + hex_lower(data.drop_first())
    }
}

/// Computes the SHA-256 digest with sha2's `Sha256::digest` (digest's `Digest`
/// trait). Claimed: the result is the digest of `data`, a function of `data`
/// alone, 32 bytes long; the digest itself is left unstated (named `sha256`).
#[verifier::external_body]
fn sha256_digest(data: &[u8]) -> (r: Vec<u8>)
    ensures
        r@ == sha256(data@),
        r@.len() == 32,
{
    sha2::Sha256::digest(data).to_vec()
}

/// Encodes bytes with hex's `encode`. Claimed: each byte becomes two lowercase
/// hexadecimal digits, high nibble first, as that crate documents.
#[verifier::external_body]
fn hex_encode(data: &[u8]) -> (r: String)
    ensures
        r@ == hex_lower(data@),
{
    hex::encode(data)
}

/// A digest in lowercase hexadecimal, two digits per byte.
pub fn hex_string(digest: &[u8]) -> (r: String)
    ensures
        r@ == hex_lower(digest@),
        r@.len() == 2 * digest@.len(),
{
    proof { lemma_hex_len(digest@); }
    hex_encode(digest)
}

/// The content hash of a clipboard payload: its SHA-256 digest in lowercase hex.
pub fn hash_bytes(data: &[u8]) -> (r: String)
    ensures
        r@ == hex_lower(sha256(data@)),
        r@.len() == 64,
{
    let digest = sha256_digest(data);
    hex_string(digest.as_slice())
}

/// Hex encoding doubles the length.
pub proof fn lemma_hex_len(data: Seq<u8>)
    ensures
        hex_lower(data).len() == 2 * data.len(),
    decreases data.len(),
{
    if data.len() > 0 {
        lemma_hex_len(data.drop_first());
    }
}

} // verus!
