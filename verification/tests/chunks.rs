//! Chunk model: content addressing, the capacity ceiling and the
//! in-memory chunk store.

use bitcoin_hashes::sha256;
use storm_core::chunk::{Chunk, ChunkId, TooLargeData, TryFromChunk, TryToChunk};
use storm_core::container::ChunkStore;

#[test]
fn chunk_id_deterministic() {
    let c1 = Chunk::construct(vec![1, 2, 3]).unwrap();
    let c2 = Chunk::construct(vec![1, 2, 3]).unwrap();
    assert_eq!(c1.chunk_id(), c2.chunk_id());
    assert_eq!(c1, c2);
}

#[test]
fn chunk_id_changes_with_content() {
    let c1 = Chunk::construct(vec![1, 2, 3]).unwrap();
    let c2 = Chunk::construct(vec![1, 2, 4]).unwrap();
    let c3 = Chunk::construct(vec![1, 2]).unwrap();
    assert_ne!(c1.chunk_id(), c2.chunk_id());
    assert_ne!(c1.chunk_id(), c3.chunk_id());
}

#[test]
fn chunk_id_is_digest_of_serialization() {
    // The id commits to the 3-byte length prefix followed by the data.
    let c = Chunk::construct(vec![1, 2, 3]).unwrap();
    let preimage = [3u8, 0, 0, 1, 2, 3];
    let expected = <sha256::Hash as bitcoin_hashes::Hash>::into_inner(<sha256::Hash as bitcoin_hashes::Hash>::hash(&preimage));
    assert_eq!(c.chunk_id().0, expected);
}

#[test]
fn chunk_capacity_ceiling() {
    let at_limit = vec![0u8; (1 << 24) - 1];
    assert!(Chunk::construct(at_limit).is_ok());
    let too_large = vec![0u8; 1 << 24];
    assert_eq!(Chunk::construct(too_large).unwrap_err(), TooLargeData);
}

#[test]
fn fragment_ids_concatenate() {
    let a = vec![1u8, 2];
    let b = vec![3u8, 4, 5];
    let whole = vec![1u8, 2, 3, 4, 5];
    assert_eq!(
        ChunkId::with_fragments(&a, &b),
        ChunkId::with_encoded(&whole)
    );
    assert_eq!(
        ChunkId::with_encoded(&whole).0,
        <sha256::Hash as bitcoin_hashes::Hash>::into_inner(<sha256::Hash as bitcoin_hashes::Hash>::hash(&whole))
    );
}

#[test]
fn chunk_store_lookup() {
    let mut store = ChunkStore::new();
    let c1 = Chunk::construct(vec![1, 2, 3]).unwrap();
    let c2 = Chunk::construct(vec![4, 5]).unwrap();
    let id1 = c1.chunk_id();
    let id2 = c2.chunk_id();
    store.put(c1.clone());
    assert_eq!(store.get(&id1).unwrap(), &c1);
    assert!(store.get(&id2).is_none());
    store.put(c2.clone());
    assert_eq!(store.get(&id2).unwrap(), &c2);
}

#[test]
fn chunk_packs_as_itself() {
    let c = Chunk::construct(vec![9, 8, 7]).unwrap();
    let packed = c.try_to_chunk().unwrap();
    assert_eq!(packed, c);
    let back = Chunk::try_from_chunk(&packed).unwrap();
    assert_eq!(back, c);
}

#[test]
fn sorted_id_set_construction() {
    let mut ids: Vec<ChunkId> = Vec::new();
    for id in [
        ChunkId([9u8; 32]),
        ChunkId([1u8; 32]),
        ChunkId([5u8; 32]),
        ChunkId([1u8; 32]),
    ] {
        storm_core::codec::insert_sorted_id(&mut ids, id);
    }
    assert_eq!(
        ids,
        vec![ChunkId([1u8; 32]), ChunkId([5u8; 32]), ChunkId([9u8; 32])]
    );
}
