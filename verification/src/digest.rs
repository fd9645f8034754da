//! BLAKE3 digests.
use vstd::prelude::*;

verus! {

/// The BLAKE3 digest of `input`, as `blake3::hash` computes it.
pub uninterp spec fn blake3_digest(input: Seq<u8>) -> Seq<u8>;

/// The BLAKE3 digest of `input` under `key`, as `blake3::keyed_hash` computes it.
pub uninterp spec fn blake3_keyed_digest(key: Seq<u8>, input: Seq<u8>) -> Seq<u8>;

/// Calls `blake3::hash`.
///
/// What the contract claims: the 32 bytes depend on the input alone, and have the name
/// `blake3_digest`.
#[verifier::external_body]
pub(crate) fn hash(input: &[u8]) -> (r: [u8; 32])
    ensures
        r@ == blake3_digest(input@),
{
    *blake3::hash(input).as_bytes()
}

/// Calls `blake3::keyed_hash`.
///
/// What the contract claims: the 32 bytes depend on the key and the input alone, and have the
/// name `blake3_keyed_digest`.
#[verifier::external_body]
pub(crate) fn keyed_hash(key: &[u8; 32], input: &[u8]) -> (r: [u8; 32])
    ensures
        r@ == blake3_keyed_digest(key@, input@),
{
    *blake3::keyed_hash(key, input).as_bytes()
}

} // verus!
