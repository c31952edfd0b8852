//! End-to-end exchanges between two peers: a successful container pull
//! with chunk reassembly, and a terminal rejection.

use storm_core::app::StormApp;
use storm_core::chunk::{Chunk, ChunkId};
use storm_core::container::{Container, ChunkStore, ContainerFullId, ContainerId, MissingChunk};
use storm_core::mesg::MesgId;
use storm_core::p2p::{AppMsg, ChunkPull, ChunkPush, Messages};

/// Peer B's side: storage for one shared container and its chunks.
struct PeerB {
    container: Container,
    store: ChunkStore,
}

impl PeerB {
    fn holding(payload: &[u8], chunk_size: usize) -> PeerB {
        let (container, chunks) = Container::split(&payload.to_vec(), chunk_size);
        let mut store = ChunkStore::new();
        for chunk in chunks {
            store.put(chunk);
        }
        PeerB { container, store }
    }
}

#[test]
fn pull_container_and_reassemble() {
    let payload = b"twelve bytes".to_vec();
    assert_eq!(payload.len(), 12);
    let b = PeerB::holding(&payload, 4);
    assert_eq!(b.container.chunks.len(), 3);
    assert_eq!(b.container.size, 12);
    let container_id = b.container.container_id();
    let message_id = MesgId([0x11; 32]);

    // A asks for the container, naming the message that grants access.
    let request = Messages::PullContainer(AppMsg {
        app: StormApp::Storage,
        data: ContainerFullId { message_id, container_id },
    });
    let wire = request.encode();

    // B answers with the manifest.
    let request = Messages::decode(&wire).unwrap();
    let manifest = match request {
        Messages::PullContainer(m) => {
            assert_eq!(m.data.container_id, b.container.container_id());
            b.container.clone()
        },
        _ => panic!("expected a container pull"),
    };
    let response = Messages::PushContainer(AppMsg { app: StormApp::Storage, data: manifest });
    let wire = response.encode();

    // A pulls every chunk the manifest references.
    let manifest = match Messages::decode(&wire).unwrap() {
        Messages::PushContainer(m) => m.data,
        _ => panic!("expected a container push"),
    };
    let mut chunk_ids: Vec<ChunkId> = Vec::new();
    for id in &manifest.chunks {
        storm_core::codec::insert_sorted_id(&mut chunk_ids, *id);
    }
    let pull = Messages::PullChunk(ChunkPull {
        app: StormApp::Storage,
        message_id,
        container_id,
        chunk_ids,
    });
    let wire = pull.encode();

    // B streams one push per requested chunk; A stores them by id.
    let mut received = ChunkStore::new();
    match Messages::decode(&wire).unwrap() {
        Messages::PullChunk(p) => {
            for id in &p.chunk_ids {
                let chunk = b.store.get(id).expect("B holds every chunk").clone();
                let push = Messages::PushChunk(ChunkPush {
                    app: StormApp::Storage,
                    container_id: p.container_id,
                    chunk_id: *id,
                    chunk,
                });
                match Messages::decode(&push.encode()).unwrap() {
                    Messages::PushChunk(got) => {
                        assert_eq!(got.chunk_id, *id);
                        assert_eq!(got.container_id, container_id);
                        received.put(got.chunk);
                    },
                    _ => panic!("expected a chunk push"),
                }
            }
        },
        _ => panic!("expected a chunk pull"),
    }

    // A reassembles the payload; its length matches the declared size.
    let reassembled = manifest.reassemble(&received).unwrap();
    assert_eq!(reassembled, payload);
    assert_eq!(reassembled.len() as u64, manifest.size);
}

#[test]
fn reject_is_terminal() {
    let message_id = MesgId([0x11; 32]);
    let container_id = ContainerId([0x77; 32]);
    let request = Messages::PullContainer(AppMsg {
        app: StormApp::Storage,
        data: ContainerFullId { message_id, container_id },
    });
    let wire = request.encode();

    // B does not hold the container and rejects the pull.
    let response = match Messages::decode(&wire).unwrap() {
        Messages::PullContainer(m) => {
            Messages::Reject(AppMsg { app: StormApp::Storage, data: m.data })
        },
        _ => panic!("expected a container pull"),
    };
    let wire = response.encode();

    // A sees the rejection as the terminal outcome of this exchange: the
    // ids identify which pull ended, and no retry is issued.
    match Messages::decode(&wire).unwrap() {
        Messages::Reject(m) => {
            assert_eq!(m.data.message_id, message_id);
            assert_eq!(m.data.container_id, container_id);
        },
        other => panic!("expected a rejection, got {:?}", other),
    }
}

#[test]
fn reassemble_fails_on_missing_chunk() {
    let payload = b"some payload".to_vec();
    let (container, chunks) = Container::split(&payload, 5);
    let mut store = ChunkStore::new();
    // Store all chunks but the last one.
    let missing = chunks.last().unwrap().chunk_id();
    for chunk in chunks.iter().take(chunks.len() - 1) {
        store.put(chunk.clone());
    }
    let MissingChunk(id) = container.reassemble(&store).unwrap_err();
    assert_eq!(id, missing);
}

#[test]
fn split_makes_ceil_count_chunks() {
    for (len, size, expect) in [(12usize, 4usize, 3usize), (13, 4, 4), (1, 4, 1), (4, 4, 1)] {
        let payload = vec![0xA5u8; len];
        let (container, chunks) = Container::split(&payload, size);
        assert_eq!(chunks.len(), expect);
        assert_eq!(container.chunks.len(), expect);
        assert_eq!(container.size, len as u64);
    }
}

#[test]
fn split_empty_payload() {
    let (container, chunks) = Container::split(&Vec::new(), 4);
    assert_eq!(chunks.len(), 0);
    assert_eq!(container.size, 0);
    assert_eq!(container.chunks.len(), 0);
    let store = ChunkStore::new();
    assert_eq!(container.reassemble(&store).unwrap(), Vec::<u8>::new());
}
