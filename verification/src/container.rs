//! Container model: an ordered manifest of chunk identifiers plus metadata
//! describing one logical payload, itself content-addressed. The manifest is
//! bounded to `2^19` chunk references so that, together with the 24-bit
//! chunk-size field, its serialization stays under the one-packet ceiling.

use vstd::prelude::*;
use vstd::pervasive::unreached;
use crate::chunk::{eq_bytes, Chunk, ChunkId, chunk_id_of, TryFromChunk, MAX_CHUNK_LEN};
use crate::codec::{
    enc_bytes16, enc_u16, enc_u24, enc_u64, enc_ids, dec_bytes16_at, dec_u16_at, dec_u24_at,
    dec_u64_at, dec_ids_at, eq32, id_views, lemma_subrange_split, lemma_dec_bytes16, lemma_dec_u16,
    lemma_dec_u24, lemma_dec_u64, lemma_dec_ids, lemma_enc_ids_len, read_bytes16, read_u16,
    read_u24, read_u64, read_ids, write_bytes16, write_u16, write_u24, write_u64, write_ids,
    DecodeError, WireId,
};
use crate::commit::{sha256_from_midstate, sha256_midstate_digest};
use crate::mesg::{MesgId, MIDSTATE_MESG_ID};

verus! {

/// Midstate of SHA-256 after absorbing `SHA256("storm:container")` twice:
/// the domain-separation tag under which container ids are committed.
pub const MIDSTATE_CONTAINER_ID: [u8; 32] = [
    213, 126, 121, 18, 141, 34, 64, 215, 78, 163, 37, 117, 217, 166, 67, 226, 137, 2, 113, 215,
    156, 29, 193, 183, 154, 55, 48, 250, 208, 149, 206, 14,
];

/// Human-readable part of the bech32m string form of a container id.
pub const STORM_CONTAINER_ID_HRP: &'static str = "storm";

/// Largest number of chunk references one container manifest may carry:
/// `2^19`, so that the serialized index fits one transport packet.
pub const MAX_CONTAINER_CHUNKS: u32 = 0x8_0000;

/// Tag of the [`ContainerId`] hash kind: fixes the midstate that
/// domain-separates container commitments from every other identifier kind.
pub struct ContainerIdTag;

impl ContainerIdTag {
    /// The precomputed tag midstate, derived once from `"storm:container"`.
    pub fn midstate() -> (r: [u8; 32])
        ensures
            r@ == MIDSTATE_CONTAINER_ID@,
    {
        MIDSTATE_CONTAINER_ID
    }
}

/// Unique data container identifier: the tagged SHA-256 commitment of the
/// container's serialized manifest.
#[derive(Copy, Clone, Debug)]
pub struct ContainerId(pub [u8; 32]);

impl View for ContainerId {
    type V = Seq<u8>;

    open spec fn view(&self) -> Seq<u8> {
        self.0@
    }
}

impl PartialEq for ContainerId {
    fn eq(&self, other: &Self) -> (r: bool) {
        eq32(&self.0, &other.0)
    }
}

impl Eq for ContainerId {}

impl vstd::std_specs::cmp::PartialEqSpecImpl for ContainerId {
    open spec fn obeys_eq_spec() -> bool {
        true
    }

    open spec fn eq_spec(&self, other: &Self) -> bool {
        self.0@ == other.0@
    }
}

impl WireId for ContainerId {
    open spec fn idv(&self) -> Seq<u8> {
        self.0@
    }

    fn raw(&self) -> (r: &[u8; 32]) {
        &self.0
    }

    fn from_raw(a: [u8; 32]) -> (r: Self) {
        ContainerId(a)
    }
}

/// Error raised when parsing the string form of a container id.
#[derive(Copy, Clone, Debug, PartialEq, Eq, Structural)]
pub enum Bech32Error {
    /// The string is not a well-formed bech32m string.
    BadString,
    /// The human-readable part is not the container prefix.
    WrongHrp,
    /// The data part does not hold exactly 32 bytes.
    BadLength,
}

/// The bech32m string that encodes the given data bytes under the given
/// human-readable part, as BIP-350 defines it: the lowercase
/// human-readable part, the separator `1`, then the base-32 data and its
/// six-character checksum. A function of its arguments alone.
pub uninterp spec fn bech32m_str(hrp: Seq<char>, data: Seq<u8>) -> Seq<char>;

/// A human-readable part the bech32 encoder accepts: 1 to 83 characters,
/// each in the US-ASCII range 33..=126, none of them uppercase.
pub open spec fn valid_hrp(hrp: Seq<char>) -> bool {
    &&& 1 <= hrp.len() <= 83
    &&& forall|k: int|
        0 <= k < hrp.len() ==> 33 <= #[trigger] (hrp[k] as u32) <= 126 && !(65 <= (hrp[k] as u32)
            <= 90)
}

/// Whether a string holds no uppercase ASCII letter.
pub open spec fn no_upper(s: Seq<char>) -> bool {
    forall|k: int| 0 <= k < s.len() ==> !(65 <= #[trigger] (s[k] as u32) <= 90)
}

/// Relies on `bech32::encode` with the `Bech32m` checksum variant over the
/// base-32 form of the data: yields the bech32m string of the data under
/// the given human-readable part. The encoding is injective in the data
/// (decoding recovers them), and its output is lowercase.
#[verifier::external_body]
fn bech32m_encode(hrp: &str, data: &Vec<u8>) -> (r: Result<String, Bech32Error>)
    ensures
        valid_hrp(hrp@) ==> r matches Ok(..),
        r matches Ok(s) ==> s@ == bech32m_str(hrp@, data@) && no_upper(s@),
        r matches Ok(s) ==> forall|d2: Seq<u8>| bech32m_str(hrp@, d2) == s@ ==> d2 == data@,
{
    let u5s = <&[u8] as bech32::ToBase32>::to_base32(&data.as_slice());
    bech32::encode(hrp, u5s, bech32::Variant::Bech32m).map_err(|_| Bech32Error::BadString)
}

/// Relies on `bech32::decode` and the base-32-to-bytes conversion: accepts
/// exactly the well-formed bech32m strings, returning the lowercase
/// human-readable part and the data bytes. Decoding inverts encoding: the
/// bech32m string of any data under any valid human-readable part decodes
/// to that pair; and a lowercase string that decodes is the bech32m string
/// of what it decodes to.
#[verifier::external_body]
fn bech32m_decode(s: &str) -> (r: Result<(String, Vec<u8>), Bech32Error>)
    ensures
        match r {
            Ok(p) => forall|h: Seq<char>, d: Seq<u8>|
                valid_hrp(h) && s@ == #[trigger] bech32m_str(h, d) ==> p.0@ == h && p.1@ == d,
            Err(_) => forall|h: Seq<char>, d: Seq<u8>|
                !(valid_hrp(h) && s@ == #[trigger] bech32m_str(h, d)),
        },
        r matches Ok(p) ==> (no_upper(s@) ==> s@ == bech32m_str(p.0@, p.1@)),
        r matches Ok(p) ==> valid_hrp(p.0@),
{
    let (hrp, u5s, variant) = bech32::decode(s).map_err(|_| Bech32Error::BadString)?;
    match variant {
        bech32::Variant::Bech32m => {},
        bech32::Variant::Bech32 => return Err(Bech32Error::BadString),
    }
    let bytes = <Vec<u8> as bech32::FromBase32>::from_base32(&u5s)
        .map_err(|_| Bech32Error::BadString)?;
    Ok((hrp, bytes))
}

/// The container id prefix, as character views.
pub open spec fn storm_hrp() -> Seq<char> {
    STORM_CONTAINER_ID_HRP@
}

/// The container id prefix is a valid, lowercase human-readable part.
proof fn lemma_storm_hrp_valid()
    ensures
        valid_hrp(storm_hrp()),
        storm_hrp().len() == 5,
{
    reveal_strlit("storm");
    assert(storm_hrp().len() == 5);
    assert forall|k: int| 0 <= k < storm_hrp().len() implies 33 <= #[trigger] (storm_hrp()[k]
        as u32) <= 126 && !(65 <= (storm_hrp()[k] as u32) <= 90) by {
        if k == 0 {
            assert(storm_hrp()[0] == 's');
        } else if k == 1 {
            assert(storm_hrp()[1] == 't');
        } else if k == 2 {
            assert(storm_hrp()[2] == 'o');
        } else if k == 3 {
            assert(storm_hrp()[3] == 'r');
        } else {
            assert(storm_hrp()[4] == 'm');
        }
    }
}

impl ContainerId {
    /// The human-readable bech32m string form of the id, for out-of-band
    /// sharing: the `storm` prefix, then the id bytes in base 32 with a
    /// checksum.
    pub fn to_bech32_string(&self) -> (r: String)
        ensures
            r@ == bech32m_str(storm_hrp(), self@),
            no_upper(r@),
    {
        let data = vstd::slice::slice_to_vec(self.0.as_slice());
        proof {
            lemma_storm_hrp_valid();
        }
        match bech32m_encode(STORM_CONTAINER_ID_HRP, &data) {
            Ok(s) => s,
            Err(_) => unreached(),
        }
    }

    /// Parses the bech32m string form of a container id. Exactly the
    /// strings produced by [`ContainerId::to_bech32_string`] are accepted:
    /// a string under a different human-readable part, with a damaged
    /// checksum or with a data part of the wrong width is rejected.
    pub fn from_bech32_str(s: &str) -> (r: Result<ContainerId, Bech32Error>)
        ensures
            forall|d: Seq<u8>|
                d.len() == 32 && s@ == #[trigger] bech32m_str(storm_hrp(), d) ==> (r matches Ok(id)
                    && id@ == d),
            no_upper(s@) ==> match r {
                Ok(id) => s@ == bech32m_str(storm_hrp(), id@),
                Err(_) => true,
            },
    {
        proof {
            lemma_storm_hrp_valid();
        }
        let (hrp, data) = match bech32m_decode(s) {
            Ok(p) => p,
            Err(e) => {
                return Err(e);
            },
        };
        let expected: String = STORM_CONTAINER_ID_HRP.to_owned();
        if !(hrp == expected) {
            return Err(Bech32Error::WrongHrp);
        }
        if data.len() != 32 {
            return Err(Bech32Error::BadLength);
        }
        let mut arr = [0u8; 32];
        let mut k: usize = 0;
        while k < 32
            invariant
                k <= 32,
                data@.len() == 32,
                forall|m: int| 0 <= m < k ==> arr@[m] == data@[m],
            decreases 32 - k,
        {
            arr[k] = data[k];
            k += 1;
        }
        assert(arr@ =~= data@);
        Ok(ContainerId(arr))
    }

    /// Law: the bech32m string form round-trips. Decoding the encoded form
    /// of any container id yields the id back; this function performs the
    /// round trip and its contract pins the result to the input.
    pub fn bech32_roundtrip(&self) -> (r: ContainerId)
        ensures
            r@ == self@,
    {
        let s = self.to_bech32_string();
        match Self::from_bech32_str(s.as_str()) {
            Ok(id) => id,
            Err(_) => unreached(),
        }
    }
}

/// Full container address: the container id together with the message that
/// grants access rights to it.
#[derive(Copy, Clone, Debug)]
pub struct ContainerFullId {
    /// Message defining access rights to the container.
    pub message_id: MesgId,
    /// The container itself.
    pub container_id: ContainerId,
}

impl PartialEq for ContainerFullId {
    fn eq(&self, other: &Self) -> (r: bool) {
        eq32(&self.message_id.0, &other.message_id.0) && eq32(
            &self.container_id.0,
            &other.container_id.0,
        )
    }
}

impl Eq for ContainerFullId {}

impl vstd::std_specs::cmp::PartialEqSpecImpl for ContainerFullId {
    open spec fn obeys_eq_spec() -> bool {
        true
    }

    open spec fn eq_spec(&self, other: &Self) -> bool {
        self.message_id@ == other.message_id@ && self.container_id@ == other.container_id@
    }
}

/// An ASCII string: at most `2^16 - 1` bytes, each below `0x80`.
#[derive(Clone, Debug)]
pub struct AsciiString {
    bytes: Vec<u8>,
}

/// Whether every byte of a sequence is ASCII.
pub open spec fn all_ascii(b: Seq<u8>) -> bool {
    forall|k: int| 0 <= k < b.len() ==> #[trigger] b[k] < 0x80
}

impl View for AsciiString {
    type V = Seq<u8>;

    closed spec fn view(&self) -> Seq<u8> {
        self.bytes@
    }
}

impl PartialEq for AsciiString {
    fn eq(&self, other: &Self) -> (r: bool) {
        eq_bytes(&self.bytes, &other.bytes)
    }
}

impl Eq for AsciiString {}

impl vstd::std_specs::cmp::PartialEqSpecImpl for AsciiString {
    open spec fn obeys_eq_spec() -> bool {
        true
    }

    open spec fn eq_spec(&self, other: &Self) -> bool {
        self@ == other@
    }
}

/// Checks that every byte of a vector is ASCII.
pub fn check_all_ascii(b: &Vec<u8>) -> (r: bool)
    ensures
        r == all_ascii(b@),
{
    let n = b.len();
    let mut k: usize = 0;
    while k < n
        invariant
            k <= n,
            n == b@.len(),
            forall|m: int| 0 <= m < k ==> #[trigger] b@[m] < 0x80,
        decreases n - k,
    {
        if b[k] >= 0x80 {
            return false;
        }
        k += 1;
    }
    true
}

impl AsciiString {
    /// An ASCII string is well formed when it fits a 2-byte length prefix
    /// and holds ASCII bytes only.
    pub open spec fn wf(self) -> bool {
        self@.len() <= u16::MAX && all_ascii(self@)
    }

    /// Constructs an ASCII string; yields nothing exactly when a byte is
    /// not ASCII or the data exceed the 2-byte length budget.
    pub fn from_bytes(bytes: Vec<u8>) -> (r: Option<AsciiString>)
        ensures
            match r {
                Some(a) => a@ == bytes@ && a.wf(),
                None => !(bytes@.len() <= u16::MAX && all_ascii(bytes@)),
            },
    {
        if bytes.len() <= u16::MAX as usize && check_all_ascii(&bytes) {
            Some(AsciiString { bytes })
        } else {
            None
        }
    }

    /// The string's bytes.
    pub fn bytes(&self) -> (r: &Vec<u8>)
        ensures
            r@ == self@,
    {
        &self.bytes
    }

    /// The empty ASCII string.
    pub fn empty() -> (r: AsciiString)
        ensures
            r@ == Seq::<u8>::empty(),
            r.wf(),
    {
        AsciiString { bytes: Vec::new() }
    }
}

/// Mathematical model of a container manifest.
#[verifier::ext_equal]
pub struct ContainerV {
    /// Schema version of the container; zero for now.
    pub version: u16,
    /// Bytes of the MIME type of the payload.
    pub mime: Seq<u8>,
    /// Bytes of the free-text description.
    pub info: Seq<u8>,
    /// Declared total payload size in bytes.
    pub size: u64,
    /// Views of the referenced chunk ids, in manifest order.
    pub chunks: Seq<Seq<u8>>,
}

/// A container is well formed when its metadata fits the length prefixes,
/// the MIME type is ASCII, the manifest respects the `2^19` reference
/// ceiling and every chunk id is 32 bytes wide.
pub open spec fn wf_container_v(v: ContainerV) -> bool {
    &&& v.mime.len() <= u16::MAX
    &&& all_ascii(v.mime)
    &&& v.info.len() <= u16::MAX
    &&& v.chunks.len() <= MAX_CONTAINER_CHUNKS
    &&& forall|k: int| 0 <= k < v.chunks.len() ==> #[trigger] v.chunks[k].len() == 32
}

/// Serialization of a container: version, MIME type, description, declared
/// size, then the 3-byte count of chunk references and their ids.
pub open spec fn enc_container_v(v: ContainerV) -> Seq<u8> {
    enc_u16(v.version) + enc_bytes16(v.mime) + enc_bytes16(v.info) + enc_u64(v.size) + enc_u24(
        v.chunks.len() as u32,
    ) + enc_ids(v.chunks)
}

/// Decode a container at position `i`.
pub open spec fn dec_container_at(s: Seq<u8>, i: int) -> Result<(ContainerV, int), DecodeError> {
    match dec_u16_at(s, i) {
        Err(e) => Err(e),
        Ok((version, j1)) => match dec_bytes16_at(s, j1) {
            Err(e) => Err(e),
            Ok((mime, j2)) => if !all_ascii(mime) {
                Err(DecodeError::NonAscii)
            } else {
                match dec_bytes16_at(s, j2) {
                    Err(e) => Err(e),
                    Ok((info, j3)) => match dec_u64_at(s, j3) {
                        Err(e) => Err(e),
                        Ok((size, j4)) => match dec_u24_at(s, j4) {
                            Err(e) => Err(e),
                            Ok((n, j5)) => if n > MAX_CONTAINER_CHUNKS {
                                Err(DecodeError::Oversize)
                            } else {
                                match dec_ids_at(s, j5, n as nat) {
                                    Err(e) => Err(e),
                                    Ok((chunks, j6)) => Ok(
                                        (ContainerV { version, mime, info, size, chunks }, j6),
                                    ),
                                }
                            },
                        },
                    },
                }
            },
        },
    }
}

/// The id a container commits to: the tagged SHA-256 digest of its
/// serialization under the container midstate. Any field change, including
/// chunk order, changes the serialization and so the id.
pub open spec fn container_id_of(v: ContainerV) -> Seq<u8> {
    sha256_midstate_digest(MIDSTATE_CONTAINER_ID@, enc_container_v(v))
}

/// A container: one logical payload split into chunks, represented by its
/// ordered manifest of chunk ids plus metadata. The chunk bytes themselves
/// live in an external store.
#[derive(Clone, Debug)]
pub struct Container {
    /// Version of the container. Always 0 for now.
    pub version: u16,
    /// MIME type of the payload.
    pub mime: AsciiString,
    /// UTF-8 description of the payload, held as opaque bytes.
    pub info: Vec<u8>,
    /// Declared container size: the sum of the sizes of the chunks.
    pub size: u64,
    /// Ids of the chunks, in payload order; duplicates are allowed.
    pub chunks: Vec<ChunkId>,
}

impl View for Container {
    type V = ContainerV;

    open spec fn view(&self) -> ContainerV {
        ContainerV {
            version: self.version,
            mime: self.mime@,
            info: self.info@,
            size: self.size,
            chunks: id_views(self.chunks@),
        }
    }
}

impl PartialEq for Container {
    fn eq(&self, other: &Self) -> (r: bool) {
        self.version == other.version && eq_bytes(self.mime.bytes(), other.mime.bytes())
            && eq_bytes(&self.info, &other.info) && self.size == other.size && crate::codec::eq_ids(
            &self.chunks,
            &other.chunks,
        )
    }
}

impl Eq for Container {}

impl vstd::std_specs::cmp::PartialEqSpecImpl for Container {
    open spec fn obeys_eq_spec() -> bool {
        true
    }

    open spec fn eq_spec(&self, other: &Self) -> bool {
        self@ =~= other@
    }
}

impl Container {
    /// A container is well formed when its serialized manifest respects
    /// every field's capacity.
    pub open spec fn wf(self) -> bool {
        wf_container_v(self@)
    }

    /// Computes the container's identifier: the tagged commitment of its
    /// serialized manifest.
    pub fn container_id(&self) -> (id: ContainerId)
        requires
            self.wf(),
        ensures
            id@ == container_id_of(self@),
    {
        let mut enc: Vec<u8> = Vec::new();
        self.write(&mut enc);
        ContainerId(sha256_from_midstate(&MIDSTATE_CONTAINER_ID, &enc))
    }

    /// Appends the container's serialization.
    pub fn write(&self, out: &mut Vec<u8>)
        requires
            self.wf(),
        ensures
            final(out)@ == old(out)@ + enc_container_v(self@),
    {
        write_u16(out, self.version);
        write_bytes16(out, self.mime.bytes());
        write_bytes16(out, &self.info);
        write_u64(out, self.size);
        write_u24(out, self.chunks.len() as u32);
        write_ids(out, &self.chunks);
        assert(out@ =~= old(out)@ + enc_container_v(self@));
    }

    /// Reads a container from a wire frame.
    pub fn read(buf: &Vec<u8>, pos: &mut usize) -> (r: Result<Container, DecodeError>)
        ensures
            match dec_container_at(buf@, *old(pos) as int) {
                Ok(v) => r matches Ok(c) && c@ == v.0 && c.wf() && *final(pos) == v.1,
                Err(e) => r matches Err(e2) && e2 == e,
            },
    {
        let version = read_u16(buf, pos)?;
        let mime_bytes = read_bytes16(buf, pos)?;
        if !check_all_ascii(&mime_bytes) {
            return Err(DecodeError::NonAscii);
        }
        let mime = AsciiString { bytes: mime_bytes };
        let info = read_bytes16(buf, pos)?;
        let size = read_u64(buf, pos)?;
        let n = read_u24(buf, pos)?;
        if n > MAX_CONTAINER_CHUNKS {
            return Err(DecodeError::Oversize);
        }
        let chunks = read_ids::<ChunkId>(buf, pos, n as usize)?;
        let c = Container { version, mime, info, size, chunks };
        proof {
            let v = dec_container_at(buf@, *old(pos) as int)->Ok_0.0;
            assert(c@ =~= v);
            assert forall|k: int| 0 <= k < c@.chunks.len() implies #[trigger] c@.chunks[k].len()
                == 32 by {
                assert(c@.chunks[k] == c.chunks@[k].idv());
            }
        }
        Ok(c)
    }
}

/// Error raised by reassembly when a referenced chunk is absent from the
/// store; carries the first missing chunk's id.
#[derive(Copy, Clone, Debug)]
pub struct MissingChunk(pub ChunkId);

/// Concatenation of byte sequences, in order.
pub open spec fn concat_bytes(parts: Seq<Seq<u8>>) -> Seq<u8>
    decreases parts.len(),
{
    if parts.len() == 0 {
        Seq::empty()
    } else {
        parts[0] + concat_bytes(parts.skip(1))
    }
}

/// Appending one part extends the concatenation by its bytes.
pub proof fn lemma_concat_bytes_snoc(parts: Seq<Seq<u8>>, a: Seq<u8>)
    ensures
        concat_bytes(parts.push(a)) == concat_bytes(parts) + a,
    decreases parts.len(),
{
    if parts.len() == 0 {
        assert(parts.push(a)[0] == a);
        assert(parts.push(a).skip(1) =~= Seq::<Seq<u8>>::empty());
        assert(concat_bytes(Seq::<Seq<u8>>::empty()) == Seq::<u8>::empty());
        assert(concat_bytes(parts.push(a)) == a + Seq::<u8>::empty());
        assert(a + Seq::<u8>::empty() =~= a);
        assert(concat_bytes(parts) + a =~= a);
    } else {
        assert(parts.push(a)[0] == parts[0]);
        assert(parts.push(a).skip(1) =~= parts.skip(1).push(a));
        lemma_concat_bytes_snoc(parts.skip(1), a);
        assert(concat_bytes(parts.push(a)) == parts[0] + (concat_bytes(parts.skip(1)) + a));
        assert(parts[0] + (concat_bytes(parts.skip(1)) + a) =~= (parts[0] + concat_bytes(
            parts.skip(1),
        )) + a);
    }
}

/// The bytes a store holds for a list of chunk ids, concatenated in order.
pub open spec fn concat_lookup(ids: Seq<Seq<u8>>, store: Map<Seq<u8>, Seq<u8>>) -> Seq<u8>
    recommends
        forall|k: int| 0 <= k < ids.len() ==> store.contains_key(#[trigger] ids[k]),
    decreases ids.len(),
{
    if ids.len() == 0 {
        Seq::empty()
    } else {
        store[ids[0]] + concat_lookup(ids.skip(1), store)
    }
}

/// Appending one id extends the looked-up concatenation by its bytes.
pub proof fn lemma_concat_lookup_snoc(ids: Seq<Seq<u8>>, store: Map<Seq<u8>, Seq<u8>>, a: Seq<u8>)
    ensures
        concat_lookup(ids.push(a), store) == concat_lookup(ids, store) + store[a],
    decreases ids.len(),
{
    if ids.len() == 0 {
        assert(ids.push(a)[0] == a);
        assert(ids.push(a).skip(1) =~= Seq::<Seq<u8>>::empty());
        assert(concat_lookup(Seq::<Seq<u8>>::empty(), store) == Seq::<u8>::empty());
        assert(concat_lookup(ids.push(a), store) == store[a] + Seq::<u8>::empty());
        assert(store[a] + Seq::<u8>::empty() =~= store[a]);
        assert(concat_lookup(ids, store) + store[a] =~= store[a]);
    } else {
        assert(ids.push(a)[0] == ids[0]);
        assert(ids.push(a).skip(1) =~= ids.skip(1).push(a));
        lemma_concat_lookup_snoc(ids.skip(1), store, a);
        assert(concat_lookup(ids.push(a), store) == store[ids[0]] + (concat_lookup(
            ids.skip(1),
            store,
        ) + store[a]));
        assert(store[ids[0]] + (concat_lookup(ids.skip(1), store) + store[a]) =~= (store[ids[0]]
            + concat_lookup(ids.skip(1), store)) + store[a]);
    }
}

/// In-memory content-addressed chunk store: maps each stored chunk's id to
/// its bytes. Later insertions under the same id override earlier ones.
pub struct ChunkStore {
    entries: Vec<(ChunkId, Chunk)>,
}

/// The map an entry list denotes: each entry inserted in order, so the last
/// entry under an id wins.
pub open spec fn store_map_of(entries: Seq<(ChunkId, Chunk)>) -> Map<Seq<u8>, Seq<u8>>
    decreases entries.len(),
{
    if entries.len() == 0 {
        Map::empty()
    } else {
        store_map_of(entries.drop_last()).insert(entries.last().0@, entries.last().1@)
    }
}

impl View for ChunkStore {
    type V = Map<Seq<u8>, Seq<u8>>;

    closed spec fn view(&self) -> Map<Seq<u8>, Seq<u8>> {
        store_map_of(self.entries@)
    }
}

/// If no entry carries an id, the denoted map has no key for it.
proof fn lemma_store_absent(entries: Seq<(ChunkId, Chunk)>, id: Seq<u8>)
    requires
        forall|k: int| 0 <= k < entries.len() ==> (#[trigger] entries[k].0)@ != id,
    ensures
        !store_map_of(entries).contains_key(id),
    decreases entries.len(),
{
    if entries.len() > 0 {
        assert(entries[entries.len() - 1].0@ != id);
        lemma_store_absent(entries.drop_last(), id);
    }
}

/// The entry of the greatest index carrying an id gives the denoted map's
/// value for it.
proof fn lemma_store_last_match(entries: Seq<(ChunkId, Chunk)>, id: Seq<u8>, k: int)
    requires
        0 <= k < entries.len(),
        (entries[k].0)@ == id,
        forall|m: int| k < m < entries.len() ==> (#[trigger] entries[m].0)@ != id,
    ensures
        store_map_of(entries).contains_key(id),
        store_map_of(entries)[id] == entries[k].1@,
    decreases entries.len(),
{
    if k == entries.len() - 1 {
    } else {
        assert(entries[entries.len() - 1].0@ != id);
        lemma_store_last_match(entries.drop_last(), id, k);
    }
}

impl ChunkStore {
    /// An empty store.
    pub fn new() -> (r: ChunkStore)
        ensures
            r@ == Map::<Seq<u8>, Seq<u8>>::empty(),
    {
        ChunkStore { entries: Vec::new() }
    }

    /// Stores a chunk under its content-derived id.
    pub fn put(&mut self, chunk: Chunk)
        requires
            chunk.wf(),
        ensures
            final(self)@ == old(self)@.insert(chunk_id_of(chunk@), chunk@),
    {
        let id = chunk.chunk_id();
        self.entries.push((id, chunk));
        proof {
            assert(self.entries@.drop_last() =~= old(self).entries@);
        }
    }

    /// Looks a chunk up by id; yields it exactly when the store holds the
    /// id.
    pub fn get(&self, id: &ChunkId) -> (r: Option<&Chunk>)
        ensures
            match r {
                Some(c) => self@.contains_key(id@) && c@ == self@[id@],
                None => !self@.contains_key(id@),
            },
    {
        let n = self.entries.len();
        let mut k: usize = n;
        while k > 0
            invariant
                k <= n,
                n == self.entries@.len(),
                forall|m: int| k <= m < n ==> (#[trigger] self.entries@[m].0)@ != id@,
            decreases k,
        {
            k -= 1;
            if eq32(&self.entries[k].0.0, &id.0) {
                proof {
                    lemma_store_last_match(self.entries@, id@, k as int);
                }
                return Some(&self.entries[k].1);
            }
        }
        proof {
            lemma_store_absent(self.entries@, id@);
        }
        None
    }
}

impl Container {
    /// Splits a payload into chunks of `chunk_size` bytes (the last chunk
    /// may be shorter) and builds the manifest referencing each chunk's id
    /// in order, with the declared size set to the payload length. The
    /// version is zero and the MIME type and description are left empty for
    /// the caller to fill in.
    pub fn split(payload: &Vec<u8>, chunk_size: usize) -> (r: (Container, Vec<Chunk>))
        requires
            1 <= chunk_size <= MAX_CHUNK_LEN,
            payload@.len() <= (chunk_size as int) * (MAX_CONTAINER_CHUNKS as int),
        ensures
            r.0.wf(),
            r.0@.version == 0,
            r.0@.mime == Seq::<u8>::empty(),
            r.0@.info == Seq::<u8>::empty(),
            r.0@.size == payload@.len(),
            r.0@.chunks.len() == r.1@.len(),
            concat_bytes(chunk_views(r.1@)) == payload@,
            forall|k: int| 0 <= k < r.1@.len() ==> (#[trigger] r.1@[k]).wf(),
            forall|k: int| 0 <= k < r.1@.len() ==> (#[trigger] r.1@[k])@.len() <= chunk_size,
            forall|k: int| 0 <= k < r.0@.chunks.len() ==> #[trigger] r.0@.chunks[k] == chunk_id_of(
                r.1@[k]@,
            ),
            payload@.len() <= r.1@.len() * (chunk_size as int),
            payload@.len() > (r.1@.len() - 1) * (chunk_size as int) || payload@.len() == 0,
    {
        let n = payload.len();
        let mut chunks: Vec<Chunk> = Vec::new();
        let mut ids: Vec<ChunkId> = Vec::new();
        let mut off: usize = 0;
        proof {
            assert(chunk_views(chunks@) =~= Seq::<Seq<u8>>::empty());
            assert(concat_bytes(chunk_views(chunks@)) =~= payload@.subrange(0, 0));
        }
        while off < n
            invariant
                off <= n,
                n == payload@.len(),
                1 <= chunk_size <= MAX_CHUNK_LEN,
                n <= (chunk_size as int) * (MAX_CONTAINER_CHUNKS as int),
                ids@.len() == chunks@.len(),
                concat_bytes(chunk_views(chunks@)) == payload@.subrange(0, off as int),
                off == chunks@.len() * chunk_size || (chunks@.len() > 0 && off == n && (chunks@.len()
                    - 1) * chunk_size < n <= chunks@.len() * chunk_size),
                forall|k: int| 0 <= k < chunks@.len() ==> (#[trigger] chunks@[k]).wf(),
                forall|k: int| 0 <= k < chunks@.len() ==> (#[trigger] chunks@[k])@.len()
                    <= chunk_size,
                forall|k: int| 0 <= k < ids@.len() ==> #[trigger] id_views(ids@)[k] == chunk_id_of(
                    chunks@[k]@,
                ),
            decreases n - off,
        {
            let take = if n - off < chunk_size {
                n - off
            } else {
                chunk_size
            };
            let piece = vstd::slice::slice_to_vec(
                vstd::slice::slice_subrange(payload.as_slice(), off, off + take),
            );
            let chunk = match Chunk::construct(piece) {
                Ok(c) => c,
                Err(_) => {
                    proof {
                        assert(false);
                    }
                    unreached()
                },
            };
            let id = chunk.chunk_id();
            let ghost prev_chunks = chunks@;
            let ghost prev_ids = ids@;
            chunks.push(chunk);
            ids.push(id);
            proof {
                assert(chunk_views(chunks@) =~= chunk_views(prev_chunks).push(chunk@));
                lemma_concat_bytes_snoc(chunk_views(prev_chunks), chunk@);
                assert(payload@.subrange(0, off as int) + payload@.subrange(
                    off as int,
                    off + take,
                ) =~= payload@.subrange(0, off + take));
                assert(id_views(ids@) =~= id_views(prev_ids).push(id@));
                lemma_split_count(n as int, off as int, take as int, chunk_size as int,
                    prev_chunks.len() as int);
            }
            off += take;
        }
        proof {
            assert(payload@.subrange(0, n as int) =~= payload@);
            lemma_split_bound(n as int, chunk_size as int, chunks@.len() as int);
            let count = chunks@.len() as int;
            assert((count - 1) * (chunk_size as int) == count * (chunk_size as int) - (
            chunk_size as int)) by (nonlinear_arith);
            if n as int == count * (chunk_size as int) && n > 0 {
                assert(count * (chunk_size as int) - (chunk_size as int) < n);
            }
        }
        let container = Container {
            version: 0,
            mime: AsciiString::empty(),
            info: Vec::new(),
            size: n as u64,
            chunks: ids,
        };
        proof {
            assert(container@.mime =~= Seq::<u8>::empty());
            assert(container@.info =~= Seq::<u8>::empty());
        }
        (container, chunks)
    }

    /// Reassembles the payload a container describes by concatenating the
    /// stored bytes of its chunks in manifest order; fails with the first
    /// missing chunk's id exactly when the store lacks a referenced chunk.
    pub fn reassemble(&self, store: &ChunkStore) -> (r: Result<Vec<u8>, MissingChunk>)
        ensures
            match r {
                Ok(p) => (forall|k: int|
                    0 <= k < self@.chunks.len() ==> store@.contains_key(
                        #[trigger] self@.chunks[k],
                    )) && p@ == concat_lookup(self@.chunks, store@),
                Err(m) => !store@.contains_key(m.0@) && exists|k: int|
                    0 <= k < self@.chunks.len() && #[trigger] self@.chunks[k] == m.0@,
            },
    {
        let mut out: Vec<u8> = Vec::new();
        let n = self.chunks.len();
        let mut k: usize = 0;
        proof {
            assert(id_views(self.chunks@).take(0) =~= Seq::<Seq<u8>>::empty());
            assert(out@ =~= concat_lookup(id_views(self.chunks@).take(0), store@));
        }
        while k < n
            invariant
                k <= n,
                n == self.chunks@.len(),
                forall|m: int| 0 <= m < k ==> store@.contains_key(#[trigger] self@.chunks[m]),
                out@ == concat_lookup(self@.chunks.take(k as int), store@),
            decreases n - k,
        {
            let id = &self.chunks[k];
            match store.get(id) {
                Some(chunk) => {
                    crate::codec::write_raw(&mut out, chunk.bytes().as_slice());
                    proof {
                        lemma_concat_lookup_snoc(self@.chunks.take(k as int), store@, id@);
                        assert(self@.chunks.take(k + 1) =~= self@.chunks.take(k as int).push(id@));
                    }
                },
                None => {
                    proof {
                        assert(self@.chunks[k as int] == id@);
                    }
                    return Err(MissingChunk(*id));
                },
            }
            k += 1;
        }
        proof {
            assert(self@.chunks.take(n as int) =~= self@.chunks);
        }
        Ok(out)
    }
}

/// The views of a list of chunks.
pub open spec fn chunk_views(cs: Seq<Chunk>) -> Seq<Seq<u8>> {
    cs.map_values(|c: Chunk| c@)
}

/// Arithmetic helper: the split loop either fills whole chunks or ends on
/// the last, shorter one.
proof fn lemma_split_count(n: int, off: int, take: int, chunk_size: int, count: int)
    requires
        1 <= chunk_size,
        0 <= off,
        off < n,
        take == if n - off < chunk_size {
            n - off
        } else {
            chunk_size
        },
        off == count * chunk_size || (count > 0 && off == n && (count - 1) * chunk_size < n <= count
            * chunk_size),
    ensures
        off + take == (count + 1) * chunk_size || (off + take == n && count * chunk_size < n <= (
        count + 1) * chunk_size),
{
    assert((count + 1) * chunk_size == count * chunk_size + chunk_size) by (nonlinear_arith);
}

/// Arithmetic helper: the number of chunks the split produces respects the
/// manifest ceiling.
proof fn lemma_split_bound(n: int, chunk_size: int, count: int)
    requires
        1 <= chunk_size,
        n <= (chunk_size as int) * (MAX_CONTAINER_CHUNKS as int),
        count * chunk_size == n || (count > 0 && (count - 1) * chunk_size < n <= count
            * chunk_size),
    ensures
        count <= MAX_CONTAINER_CHUNKS,
{
    if count > MAX_CONTAINER_CHUNKS {
        assert((count - 1) * chunk_size >= MAX_CONTAINER_CHUNKS * chunk_size) by (nonlinear_arith)
            requires
                count - 1 >= MAX_CONTAINER_CHUNKS && chunk_size >= 1,
        ;
        assert(count * chunk_size > MAX_CONTAINER_CHUNKS * chunk_size) by (nonlinear_arith)
            requires
                count > MAX_CONTAINER_CHUNKS && chunk_size >= 1,
        ;
        assert(chunk_size * MAX_CONTAINER_CHUNKS == MAX_CONTAINER_CHUNKS * chunk_size) by (
        nonlinear_arith);
    }
}

impl crate::chunk::TryToChunk for Container {
    /// A container packs as its serialized manifest.
    open spec fn chunk_encoding(&self) -> Seq<u8> {
        enc_container_v(self@)
    }

    open spec fn chunk_wf(&self) -> bool {
        self.wf()
    }

    fn try_to_chunk(&self) -> (r: Result<Chunk, crate::chunk::TooLargeData>) {
        let mut enc: Vec<u8> = Vec::new();
        self.write(&mut enc);
        Chunk::construct(enc)
    }
}

impl crate::chunk::TryFromChunk for Container {
    /// A chunk unpacks as a container when its bytes are one complete
    /// manifest serialization.
    open spec fn chunk_dec(data: Seq<u8>) -> Result<ContainerV, DecodeError> {
        match dec_container_at(data, 0) {
            Ok((v, j)) => if j == data.len() {
                Ok(v)
            } else {
                Err(DecodeError::TrailingBytes)
            },
            Err(e) => Err(e),
        }
    }

    fn try_from_chunk(chunk: &Chunk) -> (r: Result<Self, DecodeError>) {
        let buf = chunk.bytes();
        let mut pos: usize = 0;
        let c = Container::read(buf, &mut pos)?;
        if pos != buf.len() {
            return Err(DecodeError::TrailingBytes);
        }
        Ok(c)
    }
}

/// A container decodes back from wherever its encoding sits.
pub proof fn lemma_dec_container(s: Seq<u8>, i: int, v: ContainerV)
    requires
        0 <= i,
        wf_container_v(v),
        i + enc_container_v(v).len() <= s.len(),
        s.subrange(i, i + enc_container_v(v).len()) == enc_container_v(v),
    ensures
        dec_container_at(s, i) == Ok::<(ContainerV, int), DecodeError>(
            (v, i + enc_container_v(v).len()),
        ),
{
    let p1 = enc_u16(v.version);
    let p2 = enc_bytes16(v.mime);
    let p3 = enc_bytes16(v.info);
    let p4 = enc_u64(v.size);
    let p5 = enc_u24(v.chunks.len() as u32);
    let p6 = enc_ids(v.chunks);
    vstd::bytes::lemma_auto_spec_u16_to_from_le_bytes();
    vstd::bytes::lemma_auto_spec_u64_to_from_le_bytes();
    assert(p1.len() == 2 && p2.len() == 2 + v.mime.len() && p3.len() == 2 + v.info.len() && p4.len()
        == 8 && p5.len() == 3);
    lemma_enc_ids_len(v.chunks);
    assert(enc_container_v(v) =~= p1 + (p2 + (p3 + (p4 + (p5 + p6)))));
    lemma_subrange_split(s, i, p1, p2 + (p3 + (p4 + (p5 + p6))));
    lemma_dec_u16(s, i, v.version);
    let j1 = i + 2;
    lemma_subrange_split(s, j1, p2, p3 + (p4 + (p5 + p6)));
    lemma_dec_bytes16(s, j1, v.mime);
    let j2 = j1 + p2.len();
    lemma_subrange_split(s, j2, p3, p4 + (p5 + p6));
    lemma_dec_bytes16(s, j2, v.info);
    let j3 = j2 + p3.len();
    lemma_subrange_split(s, j3, p4, p5 + p6);
    lemma_dec_u64(s, j3, v.size);
    let j4 = j3 + 8;
    lemma_subrange_split(s, j4, p5, p6);
    lemma_dec_u24(s, j4, v.chunks.len() as u32);
    let j5 = j4 + 3;
    lemma_dec_ids(s, j5, v.chunks);
}

/// Law: the container commitment is injective on well-formed manifests up
/// to hash collision. Two distinct containers — differing in any field,
/// including chunk order — serialize to distinct commitment preimages, so
/// their ids coincide only if SHA-256 collides, which tests probe on
/// concrete values.
pub proof fn lemma_container_commitment_injective(c1: ContainerV, c2: ContainerV)
    requires
        wf_container_v(c1),
        wf_container_v(c2),
        c1 != c2,
    ensures
        enc_container_v(c1) != enc_container_v(c2),
{
    if enc_container_v(c1) == enc_container_v(c2) {
        let s = enc_container_v(c1);
        assert(s.subrange(0, s.len() as int) =~= s);
        lemma_dec_container(s, 0, c1);
        lemma_dec_container(s, 0, c2);
    }
}

/// Law: the identifier kinds are domain-separated. The container and
/// message commitments extend distinct midstates, and the chunk
/// commitment hashes without any midstate, so byte-identical payloads are
/// committed under different domains. That the resulting digests differ
/// holds up to SHA-256 collision and is probed by tests.
pub proof fn lemma_domain_tags_differ()
    ensures
        MIDSTATE_CONTAINER_ID@ != MIDSTATE_MESG_ID@,
{
    assert(MIDSTATE_CONTAINER_ID@[0] == 213);
    assert(MIDSTATE_MESG_ID@[0] == 74);
}

/// Law: the container serialization round-trips. Decoding the manifest a
/// well-formed container serializes to yields that very container.
pub proof fn lemma_container_roundtrip(v: ContainerV)
    requires
        wf_container_v(v),
    ensures
        Container::chunk_dec(enc_container_v(v)) == Ok::<ContainerV, DecodeError>(v),
{
    let s = enc_container_v(v);
    assert(s.subrange(0, s.len() as int) =~= s);
    lemma_dec_container(s, 0, v);
}

/// Law: looking up each id of a list that the store maps to the matching
/// part concatenates to the parts themselves; reassembly inverts
/// splitting whenever the store holds each split chunk under its id.
pub proof fn lemma_reassemble_concat(
    ids: Seq<Seq<u8>>,
    parts: Seq<Seq<u8>>,
    store: Map<Seq<u8>, Seq<u8>>,
)
    requires
        ids.len() == parts.len(),
        forall|k: int|
            0 <= k < ids.len() ==> store.contains_key(#[trigger] ids[k]) && store[ids[k]]
                == parts[k],
    ensures
        concat_lookup(ids, store) == concat_bytes(parts),
    decreases ids.len(),
{
    if ids.len() > 0 {
        assert(forall|k: int|
            0 <= k < ids.skip(1).len() ==> #[trigger] ids.skip(1)[k] == ids[k + 1]);
        lemma_reassemble_concat(ids.skip(1), parts.skip(1), store);
        assert(parts[0] + concat_bytes(parts.skip(1)) == concat_bytes(parts));
    }
}

} // verus!
