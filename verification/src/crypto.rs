//! The cryptographic primitives the pipeline leans on, each behind a small
//! trusted wrapper: the SHA-256 digest that keys the archive and builds the
//! Merkle tree, the Ed25519 signature check against the producer identity,
//! the base58 decoding of a producer identity string, and the uniform random
//! draw of the sampling policy.
//!
//! Everything else in the crate is verified against the contracts stated
//! here.

use rand::Rng;
use rand::SeedableRng;
use std::str::FromStr;
use vstd::prelude::*;

verus! {

/// The SHA-256 digest of a list of byte strings, hashed in sequence as one
/// stream.
pub uninterp spec fn hash_of(parts: Seq<Seq<u8>>) -> Seq<u8>;

/// Whether `sig` is a valid Ed25519 signature by the holder of the public
/// key `pk` over `msg`.
pub uninterp spec fn sig_valid(pk: Seq<u8>, msg: Seq<u8>, sig: Seq<u8>) -> bool;

/// The 32 bytes a base58 producer-identity string decodes to, when it
/// decodes at all.
pub uninterp spec fn parsed_pubkey(s: Seq<char>) -> Option<Seq<u8>>;

/// Relies on solana_sdk::hash::hashv: the SHA-256 digest of the given parts,
/// 32 bytes, a function of the parts alone.
#[verifier::external_body]
pub(crate) fn hashv32(parts: &Vec<Vec<u8>>) -> (r: Vec<u8>)
    ensures
        r@ == hash_of(parts@.map_values(|v: Vec<u8>| v@)),
        r@.len() == 32,
{
    let slices: Vec<&[u8]> = parts.iter().map(|v| v.as_slice()).collect();
    solana_sdk::hash::hashv(&slices).to_bytes().to_vec()
}

/// Relies on solana_sdk::signature::Signature::verify: strict Ed25519
/// verification of `sig` over `msg` against the public key bytes `pk`; a
/// malformed key or a signature of the wrong length never verifies.
#[verifier::external_body]
pub(crate) fn ed25519_verify(pk: &Vec<u8>, msg: &Vec<u8>, sig: &Vec<u8>) -> (r: bool)
    ensures
        r == sig_valid(pk@, msg@, sig@),
{
    match <[u8; 64]>::try_from(sig.as_slice()) {
        Ok(arr) => solana_sdk::signature::Signature::from(arr).verify(
            pk.as_slice(),
            msg.as_slice(),
        ),
        Err(_) => false,
    }
}

/// Relies on solana_sdk::pubkey::Pubkey's FromStr: base58 decoding of a
/// producer identity to its 32 key bytes, erring on any malformed string.
#[verifier::external_body]
pub(crate) fn decode_pubkey(s: &str) -> (r: Option<Vec<u8>>)
    ensures
        r is Some <==> parsed_pubkey(s@) is Some,
        r is Some ==> r.unwrap()@ == parsed_pubkey(s@).unwrap() && r.unwrap()@.len() == 32,
{
    match solana_sdk::pubkey::Pubkey::from_str(s) {
        Ok(pk) => Some(pk.to_bytes().to_vec()),
        Err(_) => None,
    }
}

/// Relies on rand's StdRng: one index drawn uniformly from `[0, bound)`.
/// Nothing can be promised of which index comes back, only its range.
#[verifier::external_body]
pub(crate) fn random_index_below(bound: usize) -> (r: usize)
    requires
        bound > 0,
    ensures
        r < bound,
{
    let mut rng = rand::rngs::StdRng::from_entropy();
    rng.gen_range(0..bound)
}

} // verus!
