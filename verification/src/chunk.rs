//! Chunk model: a bounded-size opaque binary unit plus its content-dependent
//! identifier. Two chunks with identical bytes always carry the same id;
//! oversized input is rejected, never truncated.

use vstd::prelude::*;
use crate::codec::{enc_bytes24, dec_bytes24_at, eq32, read_bytes24, write_bytes24, DecodeError};
use crate::commit::{sha256, sha256_digest};
use crate::container::ContainerId;

verus! {

/// Largest number of bytes a single chunk may carry: `2^24 - 1`, so that a
/// chunk always fits the payload budget of one transport packet.
pub const MAX_CHUNK_LEN: u32 = 0xFF_FFFF;

/// Error raised when constructing a chunk from data too large to fit one
/// chunk; the input is rejected, never silently truncated.
#[derive(Copy, Clone, Debug, PartialEq, Eq, Structural)]
pub struct TooLargeData;

/// Identifier of a chunk: the untagged SHA-256 digest of the chunk's
/// serialization. The hash is untagged so that chunk ids remain
/// length-extendable and composable.
#[derive(Copy, Clone, Debug)]
pub struct ChunkId(pub [u8; 32]);

impl View for ChunkId {
    type V = Seq<u8>;

    open spec fn view(&self) -> Seq<u8> {
        self.0@
    }
}

impl PartialEq for ChunkId {
    fn eq(&self, other: &Self) -> (r: bool) {
        eq32(&self.0, &other.0)
    }
}

impl Eq for ChunkId {}

impl vstd::std_specs::cmp::PartialEqSpecImpl for ChunkId {
    open spec fn obeys_eq_spec() -> bool {
        true
    }

    open spec fn eq_spec(&self, other: &Self) -> bool {
        self.0@ == other.0@
    }
}

impl crate::codec::WireId for ChunkId {
    open spec fn idv(&self) -> Seq<u8> {
        self.0@
    }

    fn raw(&self) -> (r: &[u8; 32]) {
        &self.0
    }

    fn from_raw(a: [u8; 32]) -> (r: Self) {
        ChunkId(a)
    }
}

impl ChunkId {
    /// Derives a chunk id over two serialized fragments: the digest of
    /// their concatenation, as when keying derived data by a pair of
    /// already-encoded values.
    pub fn with_fragments(a: &Vec<u8>, b: &Vec<u8>) -> (r: ChunkId)
        ensures
            r@ == sha256_digest(a@ + b@),
    {
        let mut buf: Vec<u8> = Vec::new();
        crate::codec::write_raw(&mut buf, a.as_slice());
        crate::codec::write_raw(&mut buf, b.as_slice());
        assert(buf@ =~= a@ + b@);
        ChunkId(sha256(&buf))
    }

    /// Derives a chunk id over one serialized value: the digest of its
    /// bytes.
    pub fn with_encoded(data: &Vec<u8>) -> (r: ChunkId)
        ensures
            r@ == sha256_digest(data@),
    {
        ChunkId(sha256(data))
    }
}

/// Full chunk address: the chunk id together with the container it belongs
/// to.
#[derive(Copy, Clone, Debug)]
pub struct ChunkFullId {
    /// The container the chunk belongs to.
    pub container_id: ContainerId,
    /// The chunk itself.
    pub chunk_id: ChunkId,
}

impl PartialEq for ChunkFullId {
    fn eq(&self, other: &Self) -> (r: bool) {
        eq32(&self.container_id.0, &other.container_id.0) && eq32(
            &self.chunk_id.0,
            &other.chunk_id.0,
        )
    }
}

impl Eq for ChunkFullId {}

impl vstd::std_specs::cmp::PartialEqSpecImpl for ChunkFullId {
    open spec fn obeys_eq_spec() -> bool {
        true
    }

    open spec fn eq_spec(&self, other: &Self) -> bool {
        self.container_id@ == other.container_id@ && self.chunk_id@ == other.chunk_id@
    }
}

/// The id of the chunk holding the given bytes: the SHA-256 digest of their
/// length-prefixed serialization. A pure function of the bytes, so identical
/// bytes always give identical ids.
pub open spec fn chunk_id_of(data: Seq<u8>) -> Seq<u8> {
    sha256_digest(enc_bytes24(data))
}

/// A chunk: an immutable opaque byte sequence of at most [`MAX_CHUNK_LEN`]
/// bytes.
#[derive(Clone, Debug)]
pub struct Chunk {
    data: Vec<u8>,
}

impl View for Chunk {
    type V = Seq<u8>;

    closed spec fn view(&self) -> Seq<u8> {
        self.data@
    }
}

impl PartialEq for Chunk {
    fn eq(&self, other: &Self) -> (r: bool) {
        eq_bytes(&self.data, &other.data)
    }
}

impl Eq for Chunk {}

impl vstd::std_specs::cmp::PartialEqSpecImpl for Chunk {
    open spec fn obeys_eq_spec() -> bool {
        true
    }

    open spec fn eq_spec(&self, other: &Self) -> bool {
        self@ == other@
    }
}

/// Compares two byte vectors for equality.
pub fn eq_bytes(a: &Vec<u8>, b: &Vec<u8>) -> (r: bool)
    ensures
        r == (a@ == b@),
{
    if a.len() != b.len() {
        assert(a@ != b@);
        return false;
    }
    let n = a.len();
    let mut k: usize = 0;
    while k < n
        invariant
            k <= n,
            n == a@.len(),
            n == b@.len(),
            forall|m: int| 0 <= m < k ==> a@[m] == b@[m],
        decreases n - k,
    {
        if a[k] != b[k] {
            assert(a@ != b@);
            return false;
        }
        k += 1;
    }
    assert(a@ =~= b@);
    true
}

impl Chunk {
    /// A chunk is well formed when its data fits the one-packet budget.
    pub open spec fn wf(self) -> bool {
        self@.len() <= MAX_CHUNK_LEN
    }

    /// Constructs a chunk from opaque bytes; fails with a capacity error
    /// exactly when the data exceed [`MAX_CHUNK_LEN`] bytes.
    pub fn construct(data: Vec<u8>) -> (r: Result<Chunk, TooLargeData>)
        ensures
            match r {
                Ok(c) => c.wf() && c@ == data@ && data@.len() <= MAX_CHUNK_LEN,
                Err(_) => data@.len() > MAX_CHUNK_LEN,
            },
    {
        if data.len() <= MAX_CHUNK_LEN as usize {
            Ok(Chunk { data })
        } else {
            Err(TooLargeData)
        }
    }

    /// The chunk's bytes.
    pub fn bytes(&self) -> (r: &Vec<u8>)
        ensures
            r@ == self@,
    {
        &self.data
    }

    /// The number of bytes the chunk holds.
    pub fn len(&self) -> (r: usize)
        ensures
            r == self@.len(),
    {
        self.data.len()
    }

    /// Computes the chunk's content-derived identifier.
    pub fn chunk_id(&self) -> (id: ChunkId)
        requires
            self.wf(),
        ensures
            id@ == chunk_id_of(self@),
    {
        let mut enc: Vec<u8> = Vec::new();
        write_bytes24(&mut enc, &self.data);
        ChunkId(sha256(&enc))
    }

    /// Serialized form of a chunk: its bytes behind a 3-byte length prefix.
    pub open spec fn spec_enc(self) -> Seq<u8> {
        enc_bytes24(self@)
    }

    /// Appends the chunk's serialization.
    pub fn write(&self, out: &mut Vec<u8>)
        requires
            self.wf(),
        ensures
            final(out)@ == old(out)@ + self.spec_enc(),
    {
        write_bytes24(out, &self.data);
    }

    /// Reads a chunk from a wire frame.
    pub fn read(buf: &Vec<u8>, pos: &mut usize) -> (r: Result<Chunk, DecodeError>)
        ensures
            match dec_bytes24_at(buf@, *old(pos) as int) {
                Ok(v) => r matches Ok(c) && c@ == v.0 && c.wf() && *final(pos) == v.1,
                Err(e) => r matches Err(e2) && e2 == e,
            },
    {
        let data = read_bytes24(buf, pos)?;
        Ok(Chunk { data })
    }
}

/// Law: chunk identity is content-addressed. Chunks holding identical
/// bytes always carry identical ids, in every process and on every
/// machine. That distinct bytes give distinct ids holds only up to
/// SHA-256 collision, which tests probe on concrete values.
pub proof fn lemma_chunk_id_content_addressed(b1: Seq<u8>, b2: Seq<u8>)
    requires
        b1 == b2,
    ensures
        chunk_id_of(b1) == chunk_id_of(b2),
{
}

/// Packing a value into exactly one chunk: any serializable value fits one
/// chunk if its serialized form respects the chunk size ceiling.
pub trait TryToChunk {
    /// The value's serialized form.
    spec fn chunk_encoding(&self) -> Seq<u8>;

    /// Whether the value is fit for serialization.
    spec fn chunk_wf(&self) -> bool;

    /// Packs the value into one chunk holding its serialization; fails
    /// with a capacity error exactly when the serialization exceeds
    /// [`MAX_CHUNK_LEN`] bytes.
    fn try_to_chunk(&self) -> (r: Result<Chunk, TooLargeData>)
        requires
            self.chunk_wf(),
        ensures
            match r {
                Ok(c) => c.wf() && c@ == self.chunk_encoding() && self.chunk_encoding().len()
                    <= MAX_CHUNK_LEN,
                Err(_) => self.chunk_encoding().len() > MAX_CHUNK_LEN,
            },
    ;
}

/// Unpacking a value from one chunk: the inverse of [`TryToChunk`].
pub trait TryFromChunk where Self: View + Sized {
    /// What a chunk's bytes decode to: the value's view, provided the
    /// bytes are a complete serialization of one value.
    spec fn chunk_dec(data: Seq<u8>) -> Result<Self::V, DecodeError>;

    /// Unpacks a value from the chunk; fails exactly when the chunk's
    /// bytes do not decode.
    fn try_from_chunk(chunk: &Chunk) -> (r: Result<Self, DecodeError>)
        ensures
            match Self::chunk_dec(chunk@) {
                Ok(v) => r matches Ok(x) && x@ == v,
                Err(e) => r matches Err(e2) && e2 == e,
            },
    ;
}

impl TryToChunk for Chunk {
    /// A chunk packs as itself: its own bytes, unwrapped.
    open spec fn chunk_encoding(&self) -> Seq<u8> {
        self@
    }

    open spec fn chunk_wf(&self) -> bool {
        self.wf()
    }

    fn try_to_chunk(&self) -> (r: Result<Chunk, TooLargeData>) {
        Chunk::construct(vstd::slice::slice_to_vec(self.data.as_slice()))
    }
}

impl TryFromChunk for Chunk {
    /// A chunk unpacks as itself, provided it respects the size ceiling.
    open spec fn chunk_dec(data: Seq<u8>) -> Result<Seq<u8>, DecodeError> {
        if data.len() <= MAX_CHUNK_LEN {
            Ok(data)
        } else {
            Err(DecodeError::Oversize)
        }
    }

    fn try_from_chunk(chunk: &Chunk) -> (r: Result<Self, DecodeError>) {
        match Chunk::construct(vstd::slice::slice_to_vec(chunk.bytes().as_slice())) {
            Ok(c) => Ok(c),
            Err(_) => Err(DecodeError::Oversize),
        }
    }
}

} // verus!
