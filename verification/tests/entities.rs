//! Entity serialization: topics, messages and containers round-trip
//! through their chunk packing, and their ids commit to the tag domain.

use bitcoin_hashes::sha256;
use storm_core::chunk::{Chunk, TryFromChunk, TryToChunk};
use storm_core::codec::DecodeError;
use storm_core::container::{AsciiString, Container, ContainerId};
use storm_core::mesg::{Mesg, MesgId, Topic};
use storm_core::MIDSTATE_MESG_ID;

#[test]
fn topic_roundtrip_through_chunk() {
    let t = Topic::new_topic(b"hello".to_vec(), vec![ContainerId([3u8; 32])]);
    let chunk = t.try_to_chunk().unwrap();
    let back = Topic::try_from_chunk(&chunk).unwrap();
    assert_eq!(back, t);
}

#[test]
fn mesg_roundtrip_through_chunk() {
    let m = Mesg::reply(
        MesgId([9u8; 32]),
        b"re: hello".to_vec(),
        vec![ContainerId([3u8; 32]), ContainerId([4u8; 32])],
    );
    let chunk = m.try_to_chunk().unwrap();
    let back = Mesg::try_from_chunk(&chunk).unwrap();
    assert_eq!(back, m);
}

#[test]
fn container_roundtrip_through_chunk() {
    let c = Container {
        version: 0,
        mime: AsciiString::from_bytes(b"application/octet-stream".to_vec()).unwrap(),
        info: Vec::new(),
        size: 42,
        chunks: vec![storm_core::chunk::ChunkId([5u8; 32])],
    };
    let chunk = c.try_to_chunk().unwrap();
    let back = Container::try_from_chunk(&chunk).unwrap();
    assert_eq!(back, c);
}

#[test]
fn trailing_bytes_rejected_when_unpacking() {
    let t = Topic::new_topic(b"hello".to_vec(), Vec::new());
    let chunk = t.try_to_chunk().unwrap();
    let mut bytes = chunk.bytes().clone();
    bytes.push(0);
    let padded = Chunk::construct(bytes).unwrap();
    assert_eq!(
        Topic::try_from_chunk(&padded).unwrap_err(),
        DecodeError::TrailingBytes
    );
}

#[test]
fn truncated_record_rejected_when_unpacking() {
    let m = Mesg::reply(MesgId([9u8; 32]), b"body".to_vec(), Vec::new());
    let chunk = m.try_to_chunk().unwrap();
    let mut bytes = chunk.bytes().clone();
    bytes.pop();
    let truncated = Chunk::construct(bytes).unwrap();
    assert_eq!(
        Mesg::try_from_chunk(&truncated).unwrap_err(),
        DecodeError::Truncated
    );
}

fn tagged_mesg_digest(data: &[u8]) -> [u8; 32] {
    let midstate = sha256::Midstate::from_inner(MIDSTATE_MESG_ID);
    let mut engine = sha256::HashEngine::from_midstate(midstate, 64);
    bitcoin_hashes::HashEngine::input(&mut engine, data);
    <sha256::Hash as bitcoin_hashes::Hash>::into_inner(
        <sha256::Hash as bitcoin_hashes::Hash>::from_engine(engine),
    )
}

#[test]
fn topic_id_commits_to_serialization() {
    let t = Topic::new_topic(vec![0xAB], Vec::new());
    // Body behind a 2-byte length, then a 2-byte attachment count.
    let preimage = [1u8, 0, 0xAB, 0, 0];
    assert_eq!(t.mesg_id().0, tagged_mesg_digest(&preimage));
}

#[test]
fn mesg_id_links_parent() {
    let topic = Topic::new_topic(b"root".to_vec(), Vec::new());
    let topic_id = topic.mesg_id();
    let reply = Mesg::reply(topic_id, b"child".to_vec(), Vec::new());
    let sibling = Mesg::reply(topic_id, b"child2".to_vec(), Vec::new());
    assert_eq!(reply.parent_id, topic_id);
    assert_ne!(reply.mesg_id(), sibling.mesg_id());
    assert_ne!(reply.mesg_id(), topic_id);
}
