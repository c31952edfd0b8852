//! The protocol wire format: every message variant round-trips through
//! one frame, and malformed frames are rejected with the right error.

use storm_core::app::StormApp;
use storm_core::chunk::{Chunk, ChunkId};
use storm_core::codec::DecodeError;
use storm_core::container::{AsciiString, Container, ContainerFullId, ContainerId};
use storm_core::mesg::{Mesg, MesgId, Topic};
use storm_core::p2p::{AppMsg, ChunkPull, ChunkPush, Messages, StormMesg};

fn roundtrip(m: Messages) -> Messages {
    let frame = m.encode();
    let back = Messages::decode(&frame).expect("frame must decode");
    assert_eq!(back.encode(), frame);
    back
}

#[test]
fn roundtrip_list_apps() {
    let back = roundtrip(Messages::ListApps);
    assert!(matches!(back, Messages::ListApps));
    assert_eq!(back.storm_app(), StormApp::System);
    assert_eq!(Messages::ListApps.encode(), vec![0x02, 0x00]);
}

#[test]
fn roundtrip_active_apps() {
    let apps = vec![StormApp::System, StormApp::Storage, StormApp::Vendor(0x8001)];
    let back = roundtrip(Messages::ActiveApps(apps.clone()));
    match back {
        Messages::ActiveApps(decoded) => assert_eq!(decoded, apps),
        _ => panic!("wrong variant"),
    }
}

#[test]
fn roundtrip_list_topics() {
    let back = roundtrip(Messages::ListTopics(AppMsg { app: StormApp::Chat, data: () }));
    assert_eq!(back.storm_app(), StormApp::Chat);
    assert!(matches!(back, Messages::ListTopics(_)));
}

#[test]
fn roundtrip_app_topics() {
    let ids = vec![MesgId([1u8; 32]), MesgId([2u8; 32])];
    let back = roundtrip(Messages::AppTopics(AppMsg { app: StormApp::Chat, data: ids.clone() }));
    match back {
        Messages::AppTopics(m) => {
            assert_eq!(m.app, StormApp::Chat);
            assert_eq!(m.data, ids);
        },
        _ => panic!("wrong variant"),
    }
}

#[test]
fn roundtrip_propose_topic() {
    let t = Topic::new_topic(b"subject".to_vec(), vec![ContainerId([6u8; 32])]);
    let back = roundtrip(Messages::ProposeTopic(AppMsg { app: StormApp::Chat, data: t.clone() }));
    match back {
        Messages::ProposeTopic(m) => assert_eq!(m.data, t),
        _ => panic!("wrong variant"),
    }
}

#[test]
fn roundtrip_post_read_accept_decline() {
    let mesg = Mesg::reply(MesgId([8u8; 32]), b"post body".to_vec(), Vec::new());
    let back = roundtrip(Messages::Post(AppMsg { app: StormApp::Chat, data: mesg.clone() }));
    match back {
        Messages::Post(m) => assert_eq!(m.data, mesg),
        _ => panic!("wrong variant"),
    }
    let id = MesgId([0xEE; 32]);
    let back = roundtrip(Messages::Read(AppMsg { app: StormApp::Chat, data: id }));
    assert!(matches!(back, Messages::Read(m) if m.data == id));
    let back = roundtrip(Messages::Accept(AppMsg { app: StormApp::Chat, data: id }));
    assert!(matches!(back, Messages::Accept(m) if m.data == id));
    let back = roundtrip(Messages::Decline(AppMsg { app: StormApp::Chat, data: id }));
    assert!(matches!(back, Messages::Decline(m) if m.data == id));
}

#[test]
fn roundtrip_container_exchange() {
    let full = ContainerFullId {
        message_id: MesgId([0xAA; 32]),
        container_id: ContainerId([0xBB; 32]),
    };
    let back = roundtrip(Messages::PullContainer(AppMsg { app: StormApp::Storage, data: full }));
    assert!(matches!(back, Messages::PullContainer(m) if m.data == full));
    let back = roundtrip(Messages::Reject(AppMsg { app: StormApp::Storage, data: full }));
    assert!(matches!(back, Messages::Reject(m) if m.data == full));

    let container = Container {
        version: 0,
        mime: AsciiString::from_bytes(b"text/plain".to_vec()).unwrap(),
        info: b"shared file".to_vec(),
        size: 3,
        chunks: vec![ChunkId([1u8; 32])],
    };
    let back = roundtrip(Messages::PushContainer(AppMsg {
        app: StormApp::Storage,
        data: container.clone(),
    }));
    match back {
        Messages::PushContainer(m) => assert_eq!(m.data, container),
        _ => panic!("wrong variant"),
    }
}

#[test]
fn roundtrip_chunk_exchange() {
    let pull = ChunkPull {
        app: StormApp::Storage,
        message_id: MesgId([0xAA; 32]),
        container_id: ContainerId([0xBB; 32]),
        chunk_ids: vec![ChunkId([1u8; 32]), ChunkId([2u8; 32])],
    };
    let back = roundtrip(Messages::PullChunk(pull));
    match back {
        Messages::PullChunk(p) => {
            assert_eq!(p.app, StormApp::Storage);
            assert_eq!(p.chunk_ids, vec![ChunkId([1u8; 32]), ChunkId([2u8; 32])]);
        },
        _ => panic!("wrong variant"),
    }

    let push = ChunkPush {
        app: StormApp::Storage,
        container_id: ContainerId([0xBB; 32]),
        chunk_id: ChunkId([1u8; 32]),
        chunk: Chunk::construct(vec![10, 20, 30]).unwrap(),
    };
    let back = roundtrip(Messages::PushChunk(push));
    match back {
        Messages::PushChunk(p) => {
            assert_eq!(p.chunk.bytes(), &vec![10, 20, 30]);
            assert_eq!(p.chunk_id, ChunkId([1u8; 32]));
        },
        _ => panic!("wrong variant"),
    }
}

#[test]
fn type_code_table() {
    // The first two frame bytes are the variant's type code, little endian.
    let id = MesgId([0u8; 32]);
    let full = ContainerFullId {
        message_id: MesgId([0u8; 32]),
        container_id: ContainerId([0u8; 32]),
    };
    let app = StormApp::System;
    let cases: Vec<(Messages, u16)> = vec![
        (Messages::ListApps, 0x0002),
        (Messages::ActiveApps(Vec::new()), 0x0003),
        (Messages::ListTopics(AppMsg { app, data: () }), 0x0004),
        (Messages::AppTopics(AppMsg { app, data: Vec::new() }), 0x0005),
        (
            Messages::ProposeTopic(AppMsg { app, data: Topic::new_topic(Vec::new(), Vec::new()) }),
            0x0006,
        ),
        (
            Messages::Post(AppMsg { app, data: Mesg::reply(id, Vec::new(), Vec::new()) }),
            0x0008,
        ),
        (Messages::Read(AppMsg { app, data: id }), 0x000a),
        (Messages::Decline(AppMsg { app, data: id }), 0x000c),
        (Messages::Accept(AppMsg { app, data: id }), 0x000e),
        (Messages::PullContainer(AppMsg { app, data: full }), 0x0010),
        (Messages::Reject(AppMsg { app, data: full }), 0x0012),
    ];
    for (msg, code) in cases {
        let frame = msg.encode();
        assert_eq!(&frame[..2], &code.to_le_bytes());
    }
    let pull = Messages::PullChunk(ChunkPull {
        app,
        message_id: id,
        container_id: ContainerId([0u8; 32]),
        chunk_ids: Vec::new(),
    });
    assert_eq!(&pull.encode()[..2], &0x0014u16.to_le_bytes());
    let push = Messages::PushChunk(ChunkPush {
        app,
        container_id: ContainerId([0u8; 32]),
        chunk_id: ChunkId([0u8; 32]),
        chunk: Chunk::construct(Vec::new()).unwrap(),
    });
    assert_eq!(&push.encode()[..2], &0x0015u16.to_le_bytes());
    let cont = Messages::PushContainer(AppMsg {
        app,
        data: Container {
            version: 0,
            mime: AsciiString::from_bytes(Vec::new()).unwrap(),
            info: Vec::new(),
            size: 0,
            chunks: Vec::new(),
        },
    });
    assert_eq!(&cont.encode()[..2], &0x0013u16.to_le_bytes());
}

#[test]
fn read_frame_exact_bytes() {
    let id = MesgId([0xCD; 32]);
    let frame = Messages::Read(AppMsg { app: StormApp::Chat, data: id }).encode();
    let mut expected = vec![0x0a, 0x00, 0x01, 0x00];
    expected.extend_from_slice(&[0xCD; 32]);
    assert_eq!(frame, expected);
}

#[test]
fn decode_rejects_unordered_apps() {
    let sorted = Messages::ActiveApps(vec![StormApp::System, StormApp::Chat]);
    let frame = sorted.encode();
    // Swap the two trailing app codes so the set decodes descending.
    let mut tampered = frame.clone();
    let n = tampered.len();
    let (_, tail) = tampered.split_at_mut(n - 4);
    tail.rotate_left(2);
    assert_eq!(
        Messages::decode(&tampered).unwrap_err(),
        DecodeError::UnorderedSet
    );
}

#[test]
fn decode_rejects_unknown_type() {
    let frame = vec![0xFF, 0xFF];
    assert_eq!(Messages::decode(&frame).unwrap_err(), DecodeError::UnknownType);
}

#[test]
fn decode_rejects_truncated_frame() {
    let frame = vec![0x02];
    assert_eq!(Messages::decode(&frame).unwrap_err(), DecodeError::Truncated);
    let read_frame = vec![0x0a, 0x00, 0x01, 0x00, 0xAB];
    assert_eq!(
        Messages::decode(&read_frame).unwrap_err(),
        DecodeError::Truncated
    );
}

#[test]
fn decode_rejects_trailing_bytes() {
    let mut frame = Messages::ListApps.encode();
    frame.push(0);
    assert_eq!(
        Messages::decode(&frame).unwrap_err(),
        DecodeError::TrailingBytes
    );
}

#[test]
fn decode_rejects_unordered_set() {
    let sorted = Messages::PullChunk(ChunkPull {
        app: StormApp::Storage,
        message_id: MesgId([0xAA; 32]),
        container_id: ContainerId([0xBB; 32]),
        chunk_ids: vec![ChunkId([1u8; 32]), ChunkId([2u8; 32])],
    });
    let frame = sorted.encode();
    // Swap the two trailing 32-byte ids so the set decodes descending.
    let mut tampered = frame.clone();
    let n = tampered.len();
    let (_, tail) = tampered.split_at_mut(n - 64);
    tail.rotate_left(32);
    assert_eq!(
        Messages::decode(&tampered).unwrap_err(),
        DecodeError::UnorderedSet
    );
}
