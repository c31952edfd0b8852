//! Tagged commitment scheme: every identifier is a SHA-256 digest, either of
//! the serialized entity alone or of the entity absorbed into a fixed,
//! tag-derived midstate. The midstate is the hash state reached after
//! absorbing the 64 bytes `SHA256(label) || SHA256(label)` for the entity
//! kind's unique ASCII label, so identically encoded bytes committed under
//! different kinds never collide.

use vstd::prelude::*;

verus! {

/// The digest SHA-256 assigns to a byte sequence. The digest is a function
/// of the bytes alone, the same in every process and on every machine.
pub uninterp spec fn sha256_digest(data: Seq<u8>) -> Seq<u8>;

/// The digest SHA-256 assigns to a byte sequence when the compression
/// function is started from a fixed 32-byte midstate that already absorbed
/// one 64-byte block. A function of the midstate and the bytes alone.
pub uninterp spec fn sha256_midstate_digest(midstate: Seq<u8>, data: Seq<u8>) -> Seq<u8>;

/// Relies on `bitcoin_hashes::sha256::Hash::hash`: one SHA-256 digest over
/// the given bytes, 32 bytes wide.
#[verifier::external_body]
pub fn sha256(data: &Vec<u8>) -> (r: [u8; 32])
    ensures
        r@ == sha256_digest(data@),
{
    let digest = <bitcoin_hashes::sha256::Hash as bitcoin_hashes::Hash>::hash(data.as_slice());
    <bitcoin_hashes::sha256::Hash as bitcoin_hashes::Hash>::into_inner(digest)
}

/// Relies on `bitcoin_hashes::sha256::HashEngine::from_midstate`: extends a
/// precomputed tag midstate (one 64-byte block already absorbed) with the
/// given bytes and finalizes to a 32-byte digest.
#[verifier::external_body]
pub fn sha256_from_midstate(midstate: &[u8; 32], data: &Vec<u8>) -> (r: [u8; 32])
    ensures
        r@ == sha256_midstate_digest(midstate@, data@),
{
    let midstate = bitcoin_hashes::sha256::Midstate::from_inner(*midstate);
    let mut engine = bitcoin_hashes::sha256::HashEngine::from_midstate(midstate, 64);
    bitcoin_hashes::HashEngine::input(&mut engine, data.as_slice());
    let digest = <bitcoin_hashes::sha256::Hash as bitcoin_hashes::Hash>::from_engine(engine);
    <bitcoin_hashes::sha256::Hash as bitcoin_hashes::Hash>::into_inner(digest)
}

} // verus!
