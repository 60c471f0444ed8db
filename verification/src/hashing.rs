//! Digests used by the cache and the container format: the 128-bit content
//! hash that addresses blobs and archive entries, and the SHA-512 digest that
//! checks downloaded artifacts.

use vstd::prelude::*;
use vstd::utf8::{decode_utf8, valid_utf8};
use sha2::Digest;

verus! {

/// The 128-bit content hash of a byte sequence, as the hashing routine
/// computes it. It depends on the bytes alone.
pub uninterp spec fn hash_of(bytes: Seq<u8>) -> u128;

/// The SHA-512 digest of a byte sequence. It depends on the bytes alone.
pub uninterp spec fn sha512_of(bytes: Seq<u8>) -> Seq<u8>;

/// Relies on meowhash's `MeowHasher::hash` and `MeowHash::as_u128`: a 128-bit
/// digest computed from the input bytes alone (the default seed is a fixed
/// constant).
#[verifier::external_body]
pub(crate) fn content_hash(bytes: &[u8]) -> (h: u128)
    ensures
        h == hash_of(bytes@),
{
    meowhash::MeowHasher::hash(bytes).as_u128()
}

/// Relies on sha2's `Sha512`: a 64-byte digest computed from the input bytes
/// alone.
#[verifier::external_body]
pub(crate) fn sha512_digest(bytes: &[u8]) -> (d: Vec<u8>)
    ensures
        d@ == sha512_of(bytes@),
        d@.len() == 64,
{
    sha2::Sha512::digest(bytes).to_vec()
}

/// Relies on std's `str::from_utf8`: it succeeds exactly on valid UTF-8 and
/// decodes the bytes to their character sequence.
#[verifier::external_body]
pub(crate) fn bytes_to_string(bytes: &[u8]) -> (r: Option<String>)
    ensures
        r is Some <==> valid_utf8(bytes@),
        r is Some ==> r->0@ == decode_utf8(bytes@),
{
    match core::str::from_utf8(bytes) {
        Ok(s) => Some(s.to_string()),
        Err(_) => None,
    }
}

} // verus!
