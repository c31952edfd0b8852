//! Container model: the manifest commitment, its sensitivity to every
//! field, and the bech32m string form of container ids.

use bech32::ToBase32;
use bitcoin_hashes::sha256;
use storm_core::chunk::ChunkId;
use storm_core::codec::DecodeError;
use storm_core::container::{AsciiString, Bech32Error, Container, ContainerId};
use storm_core::MIDSTATE_CONTAINER_ID;

fn sample_container() -> Container {
    Container {
        version: 0,
        mime: AsciiString::from_bytes(b"text/plain".to_vec()).unwrap(),
        info: b"greeting".to_vec(),
        size: 11,
        chunks: vec![ChunkId([1u8; 32]), ChunkId([2u8; 32])],
    }
}

fn tagged_digest(data: &[u8]) -> [u8; 32] {
    let midstate = sha256::Midstate::from_inner(MIDSTATE_CONTAINER_ID);
    let mut engine = sha256::HashEngine::from_midstate(midstate, 64);
    bitcoin_hashes::HashEngine::input(&mut engine, data);
    <sha256::Hash as bitcoin_hashes::Hash>::into_inner(
        <sha256::Hash as bitcoin_hashes::Hash>::from_engine(engine),
    )
}

#[test]
fn container_id_commits_to_serialization() {
    let c = sample_container();
    let mut expected_preimage: Vec<u8> = Vec::new();
    expected_preimage.extend_from_slice(&0u16.to_le_bytes());
    expected_preimage.extend_from_slice(&10u16.to_le_bytes());
    expected_preimage.extend_from_slice(b"text/plain");
    expected_preimage.extend_from_slice(&8u16.to_le_bytes());
    expected_preimage.extend_from_slice(b"greeting");
    expected_preimage.extend_from_slice(&11u64.to_le_bytes());
    expected_preimage.extend_from_slice(&[2u8, 0, 0]);
    expected_preimage.extend_from_slice(&[1u8; 32]);
    expected_preimage.extend_from_slice(&[2u8; 32]);
    assert_eq!(c.container_id().0, tagged_digest(&expected_preimage));
}

#[test]
fn container_id_changes_with_any_field() {
    let base = sample_container();
    let base_id = base.container_id();

    let mut c = sample_container();
    c.version = 1;
    assert_ne!(c.container_id(), base_id);

    let mut c = sample_container();
    c.mime = AsciiString::from_bytes(b"text/html".to_vec()).unwrap();
    assert_ne!(c.container_id(), base_id);

    let mut c = sample_container();
    c.info = b"greetings".to_vec();
    assert_ne!(c.container_id(), base_id);

    let mut c = sample_container();
    c.size = 12;
    assert_ne!(c.container_id(), base_id);

    let mut c = sample_container();
    c.chunks = vec![ChunkId([2u8; 32]), ChunkId([1u8; 32])];
    assert_ne!(c.container_id(), base_id);
}

#[test]
fn ascii_string_rejects_non_ascii() {
    assert!(AsciiString::from_bytes(b"text/plain".to_vec()).is_some());
    assert!(AsciiString::from_bytes(vec![b'a', 0xFF]).is_none());
}

#[test]
fn container_decode_rejects_non_ascii_mime() {
    let mut frame: Vec<u8> = Vec::new();
    frame.extend_from_slice(&0u16.to_le_bytes());
    frame.extend_from_slice(&1u16.to_le_bytes());
    frame.push(0xC3);
    let mut pos = 0usize;
    assert_eq!(
        Container::read(&frame, &mut pos).unwrap_err(),
        DecodeError::NonAscii
    );
}

#[test]
fn container_decode_rejects_oversize_manifest() {
    let mut frame: Vec<u8> = Vec::new();
    frame.extend_from_slice(&0u16.to_le_bytes());
    frame.extend_from_slice(&0u16.to_le_bytes());
    frame.extend_from_slice(&0u16.to_le_bytes());
    frame.extend_from_slice(&0u64.to_le_bytes());
    // Chunk reference count 2^19 + 1: one above the manifest ceiling.
    frame.extend_from_slice(&[0x01, 0x00, 0x08]);
    let mut pos = 0usize;
    assert_eq!(
        Container::read(&frame, &mut pos).unwrap_err(),
        DecodeError::Oversize
    );
}

#[test]
fn bech32_string_roundtrip() {
    let id = ContainerId([7u8; 32]);
    let s = id.to_bech32_string();
    assert!(s.starts_with("storm1"));
    assert_eq!(ContainerId::from_bech32_str(&s).unwrap(), id);
}

#[test]
fn bech32_string_matches_reference_encoder() {
    let id = ContainerId([7u8; 32]);
    let expected =
        bech32::encode("storm", [7u8; 32].to_base32(), bech32::Variant::Bech32m).unwrap();
    assert_eq!(id.to_bech32_string(), expected);
}

#[test]
fn bech32_rejects_wrong_hrp() {
    let foreign = bech32::encode("data", [7u8; 32].to_base32(), bech32::Variant::Bech32m).unwrap();
    assert_eq!(
        ContainerId::from_bech32_str(&foreign).unwrap_err(),
        Bech32Error::WrongHrp
    );
}

#[test]
fn bech32_rejects_damaged_checksum() {
    let id = ContainerId([7u8; 32]);
    let mut s = id.to_bech32_string();
    let last = s.pop().unwrap();
    s.push(if last == 'q' { 'p' } else { 'q' });
    assert!(ContainerId::from_bech32_str(&s).is_err());
}

#[test]
fn bech32_rejects_wrong_data_width() {
    let short = bech32::encode("storm", [7u8; 20].to_base32(), bech32::Variant::Bech32m).unwrap();
    assert_eq!(
        ContainerId::from_bech32_str(&short).unwrap_err(),
        Bech32Error::BadLength
    );
}

#[test]
fn bech32_rejects_wrong_variant() {
    let legacy = bech32::encode("storm", [7u8; 32].to_base32(), bech32::Variant::Bech32).unwrap();
    assert_eq!(
        ContainerId::from_bech32_str(&legacy).unwrap_err(),
        Bech32Error::BadString
    );
}
