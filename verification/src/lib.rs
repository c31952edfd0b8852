//! Storm core: a content-addressed, chunk-based distribution model and the
//! peer-to-peer message set that exchanges chunks, containers, topics and
//! messages between nodes.
//!
//! Every entity is identified by a domain-separated SHA-256 commitment over
//! its strict binary serialization, so that identically encoded bytes
//! committed under different entity kinds never collide.

pub mod app;
pub mod chunk;
pub mod codec;
pub mod commit;
pub mod container;
pub mod mesg;
pub mod p2p;

pub use app::{
    StormApp, STORM_APP_CHAT, STORM_APP_FILE_TRANSFER, STORM_APP_RGB_CONTRACTS,
    STORM_APP_RGB_TRANSFERS, STORM_APP_SEARCH, STORM_APP_STORAGE,
    STORM_APP_SYSTEM, STORM_APP_VENDOR_MASK,
};
pub use chunk::{
    Chunk, ChunkFullId, ChunkId, TooLargeData, TryFromChunk, TryToChunk,
};
pub use container::{
    AsciiString, Container, ContainerFullId, ContainerId, ContainerIdTag,
    MIDSTATE_CONTAINER_ID, STORM_CONTAINER_ID_HRP,
};
pub use mesg::{Mesg, MesgId, MesgIdTag, Topic, MIDSTATE_MESG_ID};
