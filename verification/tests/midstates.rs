//! The tag midstates baked into the library match the tagged-hash
//! derivation of their ASCII labels, and the domains they open are
//! separated in practice.

use amplify::Wrapper;
use bitcoin_hashes::sha256;
use storm_core::{MIDSTATE_CONTAINER_ID, MIDSTATE_MESG_ID};

#[test]
fn container_test_container_id_midstate() {
    let midstate = commit_verify::tagged_hash::Midstate::with(b"storm:container");
    assert_eq!(midstate.into_inner().into_inner(), MIDSTATE_CONTAINER_ID);
}

#[test]
fn mesg_test_container_id_midstate() {
    let midstate = commit_verify::tagged_hash::Midstate::with(b"storm:message");
    assert_eq!(midstate.into_inner().into_inner(), MIDSTATE_MESG_ID);
}

fn digest_from_midstate(midstate: [u8; 32], data: &[u8]) -> [u8; 32] {
    let midstate = sha256::Midstate::from_inner(midstate);
    let mut engine = sha256::HashEngine::from_midstate(midstate, 64);
    bitcoin_hashes::HashEngine::input(&mut engine, data);
    <sha256::Hash as bitcoin_hashes::Hash>::into_inner(
        <sha256::Hash as bitcoin_hashes::Hash>::from_engine(engine),
    )
}

#[test]
fn domains_separate_identical_payloads() {
    // The same bytes committed as a chunk, a container and a message give
    // three pairwise distinct digests.
    let payload = b"identical payload bytes";
    let plain = <sha256::Hash as bitcoin_hashes::Hash>::into_inner(
        <sha256::Hash as bitcoin_hashes::Hash>::hash(payload),
    );
    let as_container = digest_from_midstate(MIDSTATE_CONTAINER_ID, payload);
    let as_message = digest_from_midstate(MIDSTATE_MESG_ID, payload);
    assert_ne!(plain, as_container);
    assert_ne!(plain, as_message);
    assert_ne!(as_container, as_message);
}
