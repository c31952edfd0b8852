//! Message model: hash-linked topic and message records carrying opaque
//! application payload and container attachments. A topic roots a thread;
//! a message replies to a topic or to another message through `parent_id`.

use vstd::prelude::*;
use crate::chunk::{Chunk, TooLargeData, TryToChunk, TryFromChunk};
use crate::codec::{
    enc_bytes16, enc_u16, enc_ids, dec_bytes16_at, dec_u16_at, dec_ids_at, id_views,
    eq32, lemma_subrange_split, lemma_dec_bytes16, lemma_dec_u16, lemma_dec_ids,
    lemma_enc_ids_len, read_bytes16, read_u16, read_ids, write_bytes16, write_u16, write_ids,
    DecodeError, WireId,
};
use crate::commit::{sha256_from_midstate, sha256_midstate_digest};
use crate::container::ContainerId;

verus! {

/// Midstate of SHA-256 after absorbing `SHA256("storm:message")` twice: the
/// domain-separation tag under which topic and message ids are committed.
pub const MIDSTATE_MESG_ID: [u8; 32] = [
    74, 140, 219, 54, 31, 233, 243, 219, 209, 41, 9, 215, 124, 234, 167, 48, 54, 235, 42, 134,
    173, 177, 117, 48, 41, 1, 188, 29, 110, 6, 238, 159,
];

/// Tag of the [`MesgId`] hash kind: fixes the midstate that domain-separates
/// message commitments from every other identifier kind.
pub struct MesgIdTag;

impl MesgIdTag {
    /// The precomputed tag midstate, derived once from `"storm:message"`.
    pub fn midstate() -> (r: [u8; 32])
        ensures
            r@ == MIDSTATE_MESG_ID@,
    {
        MIDSTATE_MESG_ID
    }
}

/// Unique message identifier: the tagged SHA-256 commitment of a serialized
/// topic or message record.
#[derive(Copy, Clone, Debug)]
pub struct MesgId(pub [u8; 32]);

impl View for MesgId {
    type V = Seq<u8>;

    open spec fn view(&self) -> Seq<u8> {
        self.0@
    }
}

impl PartialEq for MesgId {
    fn eq(&self, other: &Self) -> (r: bool) {
        eq32(&self.0, &other.0)
    }
}

impl Eq for MesgId {}

impl vstd::std_specs::cmp::PartialEqSpecImpl for MesgId {
    open spec fn obeys_eq_spec() -> bool {
        true
    }

    open spec fn eq_spec(&self, other: &Self) -> bool {
        self.0@ == other.0@
    }
}

impl WireId for MesgId {
    open spec fn idv(&self) -> Seq<u8> {
        self.0@
    }

    fn raw(&self) -> (r: &[u8; 32]) {
        &self.0
    }

    fn from_raw(a: [u8; 32]) -> (r: Self) {
        MesgId(a)
    }
}

/// Mathematical model of a topic: opaque body bytes and the ids of the
/// attached containers.
#[verifier::ext_equal]
pub struct TopicV {
    /// Body bytes.
    pub body: Seq<u8>,
    /// Views of the attached container ids, in order.
    pub container_ids: Seq<Seq<u8>>,
}

/// A topic is well formed when its variable-size fields fit their 2-byte
/// length prefixes and every attachment id is 32 bytes wide.
pub open spec fn wf_topic_v(v: TopicV) -> bool {
    &&& v.body.len() <= u16::MAX
    &&& v.container_ids.len() <= u16::MAX
    &&& forall|k: int| 0 <= k < v.container_ids.len() ==> #[trigger] v.container_ids[k].len() == 32
}

/// Serialization of a topic: length-prefixed body, then the 2-byte count of
/// attachments, then their ids.
pub open spec fn enc_topic_v(v: TopicV) -> Seq<u8> {
    enc_bytes16(v.body) + enc_u16(v.container_ids.len() as u16) + enc_ids(v.container_ids)
}

/// Decode a topic at position `i`.
pub open spec fn dec_topic_at(s: Seq<u8>, i: int) -> Result<(TopicV, int), DecodeError> {
    match dec_bytes16_at(s, i) {
        Err(e) => Err(e),
        Ok((body, j)) => match dec_u16_at(s, j) {
            Err(e) => Err(e),
            Ok((n, j2)) => match dec_ids_at(s, j2, n as nat) {
                Err(e) => Err(e),
                Ok((ids, j3)) => Ok((TopicV { body, container_ids: ids }, j3)),
            },
        },
    }
}

/// The id a topic commits to: the tagged SHA-256 digest of its
/// serialization under the message midstate.
pub open spec fn topic_id_of(v: TopicV) -> Seq<u8> {
    sha256_midstate_digest(MIDSTATE_MESG_ID@, enc_topic_v(v))
}

/// Storm topic: the root record of a thread. The encoding of the body and
/// its semantics are application-specific and opaque to this core.
#[derive(Clone, Debug)]
pub struct Topic {
    /// Topic message body.
    pub body: Vec<u8>,
    /// Ids of the container attachments.
    pub container_ids: Vec<ContainerId>,
}

impl View for Topic {
    type V = TopicV;

    open spec fn view(&self) -> TopicV {
        TopicV { body: self.body@, container_ids: id_views(self.container_ids@) }
    }
}

impl PartialEq for Topic {
    fn eq(&self, other: &Self) -> (r: bool) {
        crate::chunk::eq_bytes(&self.body, &other.body) && crate::codec::eq_ids(
            &self.container_ids,
            &other.container_ids,
        )
    }
}

impl Eq for Topic {}

impl vstd::std_specs::cmp::PartialEqSpecImpl for Topic {
    open spec fn obeys_eq_spec() -> bool {
        true
    }

    open spec fn eq_spec(&self, other: &Self) -> bool {
        self@ =~= other@
    }
}

impl Topic {
    /// A topic is well formed when its fields fit their length prefixes.
    pub open spec fn wf(self) -> bool {
        wf_topic_v(self@)
    }

    /// Creates a new topic from body bytes and container attachments.
    pub fn new_topic(body: Vec<u8>, container_ids: Vec<ContainerId>) -> (r: Topic)
        ensures
            r@.body == body@,
            r@.container_ids == id_views(container_ids@),
    {
        Topic { body, container_ids }
    }

    /// Computes the topic's identifier: the tagged commitment of its
    /// serialization.
    pub fn mesg_id(&self) -> (id: MesgId)
        requires
            self.wf(),
        ensures
            id@ == topic_id_of(self@),
    {
        let mut enc: Vec<u8> = Vec::new();
        self.write(&mut enc);
        MesgId(sha256_from_midstate(&MIDSTATE_MESG_ID, &enc))
    }

    /// Appends the topic's serialization.
    pub fn write(&self, out: &mut Vec<u8>)
        requires
            self.wf(),
        ensures
            final(out)@ == old(out)@ + enc_topic_v(self@),
    {
        write_bytes16(out, &self.body);
        write_u16(out, self.container_ids.len() as u16);
        write_ids(out, &self.container_ids);
        assert(out@ =~= old(out)@ + enc_topic_v(self@));
    }

    /// Reads a topic from a wire frame.
    pub fn read(buf: &Vec<u8>, pos: &mut usize) -> (r: Result<Topic, DecodeError>)
        ensures
            match dec_topic_at(buf@, *old(pos) as int) {
                Ok(v) => r matches Ok(t) && t@ == v.0 && t.wf() && *final(pos) == v.1,
                Err(e) => r matches Err(e2) && e2 == e,
            },
    {
        let body = read_bytes16(buf, pos)?;
        let n = read_u16(buf, pos)?;
        let container_ids = read_ids::<ContainerId>(buf, pos, n as usize)?;
        let t = Topic { body, container_ids };
        proof {
            let v = dec_topic_at(buf@, *old(pos) as int)->Ok_0.0;
            assert(t@ =~= v);
            assert forall|k: int| 0 <= k < t@.container_ids.len() implies #[trigger] t@
                .container_ids[k].len() == 32 by {
                assert(t@.container_ids[k] == t.container_ids@[k].idv());
            }
        }
        Ok(t)
    }
}

impl TryToChunk for Topic {
    /// A topic packs as its serialization.
    open spec fn chunk_encoding(&self) -> Seq<u8> {
        enc_topic_v(self@)
    }

    open spec fn chunk_wf(&self) -> bool {
        self.wf()
    }

    fn try_to_chunk(&self) -> (r: Result<Chunk, TooLargeData>) {
        let mut enc: Vec<u8> = Vec::new();
        self.write(&mut enc);
        Chunk::construct(enc)
    }
}

impl TryFromChunk for Topic {
    /// A chunk unpacks as a topic when its bytes are one complete topic
    /// serialization.
    open spec fn chunk_dec(data: Seq<u8>) -> Result<TopicV, DecodeError> {
        match dec_topic_at(data, 0) {
            Ok((v, j)) => if j == data.len() {
                Ok(v)
            } else {
                Err(DecodeError::TrailingBytes)
            },
            Err(e) => Err(e),
        }
    }

    fn try_from_chunk(chunk: &Chunk) -> (r: Result<Self, DecodeError>) {
        let buf = chunk.bytes();
        let mut pos: usize = 0;
        let t = Topic::read(buf, &mut pos)?;
        if pos != buf.len() {
            return Err(DecodeError::TrailingBytes);
        }
        Ok(t)
    }
}

/// A topic decodes back from wherever its encoding sits.
pub proof fn lemma_dec_topic(s: Seq<u8>, i: int, v: TopicV)
    requires
        0 <= i,
        wf_topic_v(v),
        i + enc_topic_v(v).len() <= s.len(),
        s.subrange(i, i + enc_topic_v(v).len()) == enc_topic_v(v),
    ensures
        dec_topic_at(s, i) == Ok::<(TopicV, int), DecodeError>((v, i + enc_topic_v(v).len())),
{
    let p1 = enc_bytes16(v.body);
    let p2 = enc_u16(v.container_ids.len() as u16);
    let p3 = enc_ids(v.container_ids);
    vstd::bytes::lemma_auto_spec_u16_to_from_le_bytes();
    assert(p2.len() == 2);
    lemma_enc_ids_len(v.container_ids);
    assert(enc_topic_v(v) =~= p1 + (p2 + p3));
    lemma_subrange_split(s, i, p1, p2 + p3);
    lemma_dec_bytes16(s, i, v.body);
    let j = i + p1.len();
    lemma_subrange_split(s, j, p2, p3);
    lemma_dec_u16(s, j, v.container_ids.len() as u16);
    let j2 = j + 2;
    lemma_dec_ids(s, j2, v.container_ids);
}

/// Mathematical model of a message: the parent link, body bytes and the ids
/// of the attached containers.
#[verifier::ext_equal]
pub struct MesgV {
    /// View of the parent topic's or message's id.
    pub parent_id: Seq<u8>,
    /// Body bytes.
    pub body: Seq<u8>,
    /// Views of the attached container ids, in order.
    pub container_ids: Seq<Seq<u8>>,
}

/// A message is well formed when its parent id is 32 bytes wide and its
/// variable-size fields fit their 2-byte length prefixes.
pub open spec fn wf_mesg_v(v: MesgV) -> bool {
    &&& v.parent_id.len() == 32
    &&& v.body.len() <= u16::MAX
    &&& v.container_ids.len() <= u16::MAX
    &&& forall|k: int| 0 <= k < v.container_ids.len() ==> #[trigger] v.container_ids[k].len() == 32
}

/// Serialization of a message: the raw parent id, the length-prefixed body,
/// then the 2-byte count of attachments and their ids.
pub open spec fn enc_mesg_v(v: MesgV) -> Seq<u8> {
    v.parent_id + enc_bytes16(v.body) + enc_u16(v.container_ids.len() as u16) + enc_ids(
        v.container_ids,
    )
}

/// Decode a message at position `i`.
pub open spec fn dec_mesg_at(s: Seq<u8>, i: int) -> Result<(MesgV, int), DecodeError> {
    match crate::codec::dec_id32_at(s, i) {
        Err(e) => Err(e),
        Ok((parent, j)) => match dec_bytes16_at(s, j) {
            Err(e) => Err(e),
            Ok((body, j2)) => match dec_u16_at(s, j2) {
                Err(e) => Err(e),
                Ok((n, j3)) => match dec_ids_at(s, j3, n as nat) {
                    Err(e) => Err(e),
                    Ok((ids, j4)) => Ok((MesgV { parent_id: parent, body, container_ids: ids }, j4)),
                },
            },
        },
    }
}

/// The id a message commits to: the tagged SHA-256 digest of its
/// serialization under the message midstate.
pub open spec fn mesg_id_of(v: MesgV) -> Seq<u8> {
    sha256_midstate_digest(MIDSTATE_MESG_ID@, enc_mesg_v(v))
}

/// Storm message: a reply within a thread rooted at a topic.
#[derive(Clone, Debug)]
pub struct Mesg {
    /// Parent message or topic id.
    pub parent_id: MesgId,
    /// Message body; its encoding is application-specific.
    pub body: Vec<u8>,
    /// Ids of the container attachments.
    pub container_ids: Vec<ContainerId>,
}

impl View for Mesg {
    type V = MesgV;

    open spec fn view(&self) -> MesgV {
        MesgV {
            parent_id: self.parent_id@,
            body: self.body@,
            container_ids: id_views(self.container_ids@),
        }
    }
}

impl PartialEq for Mesg {
    fn eq(&self, other: &Self) -> (r: bool) {
        eq32(&self.parent_id.0, &other.parent_id.0) && crate::chunk::eq_bytes(
            &self.body,
            &other.body,
        ) && crate::codec::eq_ids(&self.container_ids, &other.container_ids)
    }
}

impl Eq for Mesg {}

impl vstd::std_specs::cmp::PartialEqSpecImpl for Mesg {
    open spec fn obeys_eq_spec() -> bool {
        true
    }

    open spec fn eq_spec(&self, other: &Self) -> bool {
        self@ =~= other@
    }
}

impl Mesg {
    /// A message is well formed when its fields fit their length prefixes.
    pub open spec fn wf(self) -> bool {
        wf_mesg_v(self@)
    }

    /// Creates a reply to the given parent topic or message.
    pub fn reply(parent_id: MesgId, body: Vec<u8>, container_ids: Vec<ContainerId>) -> (r: Mesg)
        ensures
            r@.parent_id == parent_id@,
            r@.body == body@,
            r@.container_ids == id_views(container_ids@),
    {
        Mesg { parent_id, body, container_ids }
    }

    /// Computes the message's identifier: the tagged commitment of its
    /// serialization.
    pub fn mesg_id(&self) -> (id: MesgId)
        requires
            self.wf(),
        ensures
            id@ == mesg_id_of(self@),
    {
        let mut enc: Vec<u8> = Vec::new();
        self.write(&mut enc);
        MesgId(sha256_from_midstate(&MIDSTATE_MESG_ID, &enc))
    }

    /// Appends the message's serialization.
    pub fn write(&self, out: &mut Vec<u8>)
        requires
            self.wf(),
        ensures
            final(out)@ == old(out)@ + enc_mesg_v(self@),
    {
        crate::codec::write_id32(out, &self.parent_id.0);
        write_bytes16(out, &self.body);
        write_u16(out, self.container_ids.len() as u16);
        write_ids(out, &self.container_ids);
        assert(out@ =~= old(out)@ + enc_mesg_v(self@));
    }

    /// Reads a message from a wire frame.
    pub fn read(buf: &Vec<u8>, pos: &mut usize) -> (r: Result<Mesg, DecodeError>)
        ensures
            match dec_mesg_at(buf@, *old(pos) as int) {
                Ok(v) => r matches Ok(m) && m@ == v.0 && m.wf() && *final(pos) == v.1,
                Err(e) => r matches Err(e2) && e2 == e,
            },
    {
        let parent = crate::codec::read_id32(buf, pos)?;
        let body = read_bytes16(buf, pos)?;
        let n = read_u16(buf, pos)?;
        let container_ids = read_ids::<ContainerId>(buf, pos, n as usize)?;
        let m = Mesg { parent_id: MesgId(parent), body, container_ids };
        proof {
            let v = dec_mesg_at(buf@, *old(pos) as int)->Ok_0.0;
            assert(m@ =~= v);
            assert forall|k: int| 0 <= k < m@.container_ids.len() implies #[trigger] m@
                .container_ids[k].len() == 32 by {
                assert(m@.container_ids[k] == m.container_ids@[k].idv());
            }
        }
        Ok(m)
    }
}

impl TryToChunk for Mesg {
    /// A message packs as its serialization.
    open spec fn chunk_encoding(&self) -> Seq<u8> {
        enc_mesg_v(self@)
    }

    open spec fn chunk_wf(&self) -> bool {
        self.wf()
    }

    fn try_to_chunk(&self) -> (r: Result<Chunk, TooLargeData>) {
        let mut enc: Vec<u8> = Vec::new();
        self.write(&mut enc);
        Chunk::construct(enc)
    }
}

impl TryFromChunk for Mesg {
    /// A chunk unpacks as a message when its bytes are one complete
    /// message serialization.
    open spec fn chunk_dec(data: Seq<u8>) -> Result<MesgV, DecodeError> {
        match dec_mesg_at(data, 0) {
            Ok((v, j)) => if j == data.len() {
                Ok(v)
            } else {
                Err(DecodeError::TrailingBytes)
            },
            Err(e) => Err(e),
        }
    }

    fn try_from_chunk(chunk: &Chunk) -> (r: Result<Self, DecodeError>) {
        let buf = chunk.bytes();
        let mut pos: usize = 0;
        let m = Mesg::read(buf, &mut pos)?;
        if pos != buf.len() {
            return Err(DecodeError::TrailingBytes);
        }
        Ok(m)
    }
}

/// A message decodes back from wherever its encoding sits.
pub proof fn lemma_dec_mesg(s: Seq<u8>, i: int, v: MesgV)
    requires
        0 <= i,
        wf_mesg_v(v),
        i + enc_mesg_v(v).len() <= s.len(),
        s.subrange(i, i + enc_mesg_v(v).len()) == enc_mesg_v(v),
    ensures
        dec_mesg_at(s, i) == Ok::<(MesgV, int), DecodeError>((v, i + enc_mesg_v(v).len())),
{
    let p0 = v.parent_id;
    let p1 = enc_bytes16(v.body);
    let p2 = enc_u16(v.container_ids.len() as u16);
    let p3 = enc_ids(v.container_ids);
    vstd::bytes::lemma_auto_spec_u16_to_from_le_bytes();
    assert(p2.len() == 2);
    lemma_enc_ids_len(v.container_ids);
    assert(enc_mesg_v(v) =~= p0 + (p1 + (p2 + p3)));
    lemma_subrange_split(s, i, p0, p1 + (p2 + p3));
    crate::codec::lemma_dec_id32(s, i, p0);
    let j = i + 32;
    lemma_subrange_split(s, j, p1, p2 + p3);
    lemma_dec_bytes16(s, j, v.body);
    let j2 = j + p1.len();
    lemma_subrange_split(s, j2, p2, p3);
    lemma_dec_u16(s, j2, v.container_ids.len() as u16);
    let j3 = j2 + 2;
    lemma_dec_ids(s, j3, v.container_ids);
}

/// Law: the topic serialization round-trips. Decoding the record a
/// well-formed topic serializes to yields that very topic.
pub proof fn lemma_topic_roundtrip(v: TopicV)
    requires
        wf_topic_v(v),
    ensures
        Topic::chunk_dec(enc_topic_v(v)) == Ok::<TopicV, DecodeError>(v),
{
    let s = enc_topic_v(v);
    assert(s.subrange(0, s.len() as int) =~= s);
    lemma_dec_topic(s, 0, v);
}

/// Law: the message serialization round-trips. Decoding the record a
/// well-formed message serializes to yields that very message.
pub proof fn lemma_mesg_roundtrip(v: MesgV)
    requires
        wf_mesg_v(v),
    ensures
        Mesg::chunk_dec(enc_mesg_v(v)) == Ok::<MesgV, DecodeError>(v),
{
    let s = enc_mesg_v(v);
    assert(s.subrange(0, s.len() as int) =~= s);
    lemma_dec_mesg(s, 0, v);
}

} // verus!
