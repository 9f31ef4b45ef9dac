use vstd::prelude::*;
use sha2::Digest;
use sha2::Sha256;
use crate::text::hex_lower;
use crate::text::hex_lower_spec;

verus! {

/// The SHA-256 digest of `data`: 32 bytes.
pub uninterp spec fn sha256_digest(data: Seq<u8>) -> Seq<u8>;

/// SHA-256 of `data` (`sha2::Sha256::digest`).
/// Trusted: the result is the digest named `sha256_digest` of the bytes given,
/// and it is 32 bytes long, as the SHA-256 output size is.
#[verifier::external_body]
fn sha256(data: &[u8]) -> (r: Vec<u8>)
    ensures
        r@ == sha256_digest(data@),
        r@.len() == 32,
{
    Sha256::digest(data).to_vec()
}

/// What `hash_bytes` gives for `data`: its SHA-256 digest in lower-case hexadecimal.
pub open spec fn hash_text(data: Seq<u8>) -> Seq<char> {
    hex_lower_spec(sha256_digest(data))
}

/// The SHA-256 digest of `bytes` in lower-case hexadecimal (64 characters).
pub fn hash_bytes(bytes: &[u8]) -> (r: String)
    ensures
        r@ == hash_text(bytes@),
        r@.len() == 64,
{
    let digest = sha256(bytes);
    hex_lower(digest.as_slice())
}

} // verus!
