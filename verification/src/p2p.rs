//! Peer-to-peer protocol: the enumerated wire message set that moves
//! topics, messages, containers and chunks between two peers over an
//! ordered, reliable transport. Every message is framed as a 2-byte type
//! code followed by its field encoding; every variant except the discovery
//! pair carries the originating application so a node can route it.

use vstd::prelude::*;
use vstd::pervasive::proof_from_false;
use crate::app::{sorted_apps, check_sorted_apps, StormApp};
use crate::chunk::{Chunk, ChunkId, MAX_CHUNK_LEN};
use crate::codec::{
    enc_bytes24, enc_u16, enc_ids, dec_bytes24_at, dec_u16_at, dec_id32_at, dec_ids_at, id_views,
    sorted_ids, check_sorted_ids, lemma_subrange_split, lemma_dec_bytes24, lemma_dec_u16,
    lemma_dec_id32, lemma_dec_ids, lemma_enc_ids_len, read_u16, read_id32, read_ids, write_u16,
    write_id32, write_ids, DecodeError, WireId,
};
use crate::container::{
    enc_container_v, dec_container_at, lemma_dec_container, wf_container_v, Container,
    ContainerFullId, ContainerId, ContainerV,
};
use crate::mesg::{
    enc_topic_v, enc_mesg_v, dec_topic_at, dec_mesg_at, lemma_dec_topic, lemma_dec_mesg,
    wf_topic_v, wf_mesg_v, Mesg, MesgId, MesgV, Topic, TopicV,
};

verus! {

/// Type code framing a [`Messages::ListApps`] message.
pub const MSG_TYPE_LIST_APPS: u16 = 0x0002;

/// Type code framing a [`Messages::ActiveApps`] message.
pub const MSG_TYPE_ACTIVE_APPS: u16 = 0x0003;

/// Type code framing a [`Messages::ListTopics`] message.
pub const MSG_TYPE_LIST_TOPICS: u16 = 0x0004;

/// Type code framing a [`Messages::AppTopics`] message.
pub const MSG_TYPE_APP_TOPICS: u16 = 0x0005;

/// Type code framing a [`Messages::ProposeTopic`] message.
pub const MSG_TYPE_PROPOSE_TOPIC: u16 = 0x0006;

/// Type code framing a [`Messages::Post`] message.
pub const MSG_TYPE_POST: u16 = 0x0008;

/// Type code framing a [`Messages::Read`] message.
pub const MSG_TYPE_READ: u16 = 0x000a;

/// Type code framing a [`Messages::Decline`] message.
pub const MSG_TYPE_DECLINE: u16 = 0x000c;

/// Type code framing a [`Messages::Accept`] message.
pub const MSG_TYPE_ACCEPT: u16 = 0x000e;

/// Type code framing a [`Messages::PullContainer`] message.
pub const MSG_TYPE_PULL_CONTAINER: u16 = 0x0010;

/// Type code framing a [`Messages::Reject`] message.
pub const MSG_TYPE_REJECT: u16 = 0x0012;

/// Type code framing a [`Messages::PushContainer`] message.
pub const MSG_TYPE_PUSH_CONTAINER: u16 = 0x0013;

/// Type code framing a [`Messages::PullChunk`] message.
pub const MSG_TYPE_PULL_CHUNK: u16 = 0x0014;

/// Type code framing a [`Messages::PushChunk`] message.
pub const MSG_TYPE_PUSH_CHUNK: u16 = 0x0015;

/// A message belonging to a Storm application.
pub trait StormMesg {
    /// The application the message belongs to.
    spec fn spec_storm_app(&self) -> StormApp;

    /// Returns the application this message should be routed to.
    fn storm_app(&self) -> (app: StormApp)
        ensures
            app == self.spec_storm_app(),
    ;
}

/// An application-scoped payload: the originating application and the data
/// the message carries.
#[derive(Clone, Debug)]
pub struct AppMsg<T> {
    /// The application the payload belongs to.
    pub app: StormApp,
    /// The payload itself.
    pub data: T,
}

impl<T> StormMesg for AppMsg<T> {
    open spec fn spec_storm_app(&self) -> StormApp {
        self.app
    }

    fn storm_app(&self) -> (app: StormApp) {
        self.app
    }
}

/// Request to pull a set of chunks of one container from a peer.
#[derive(Clone, Debug)]
pub struct ChunkPull {
    /// The application the exchange belongs to.
    pub app: StormApp,
    /// Message proving access rights to the container.
    pub message_id: MesgId,
    /// The container the chunks belong to.
    pub container_id: ContainerId,
    /// Ids of the requested chunks, strictly ascending.
    pub chunk_ids: Vec<ChunkId>,
}

impl StormMesg for ChunkPull {
    open spec fn spec_storm_app(&self) -> StormApp {
        self.app
    }

    fn storm_app(&self) -> (app: StormApp) {
        self.app
    }
}

/// Response carrying the data of one pulled chunk.
#[derive(Clone, Debug)]
pub struct ChunkPush {
    /// The application the exchange belongs to.
    pub app: StormApp,
    /// The container the chunk belongs to.
    pub container_id: ContainerId,
    /// Id of the chunk carried.
    pub chunk_id: ChunkId,
    /// The chunk data itself.
    pub chunk: Chunk,
}

impl StormMesg for ChunkPush {
    open spec fn spec_storm_app(&self) -> StormApp {
        self.app
    }

    fn storm_app(&self) -> (app: StormApp) {
        self.app
    }
}

/// Mathematical model of a pull-chunk request.
#[verifier::ext_equal]
pub struct ChunkPullV {
    /// The application the exchange belongs to.
    pub app: StormApp,
    /// View of the access-right message id.
    pub message_id: Seq<u8>,
    /// View of the container id.
    pub container_id: Seq<u8>,
    /// Views of the requested chunk ids.
    pub chunk_ids: Seq<Seq<u8>>,
}

/// Mathematical model of a push-chunk response.
#[verifier::ext_equal]
pub struct ChunkPushV {
    /// The application the exchange belongs to.
    pub app: StormApp,
    /// View of the container id.
    pub container_id: Seq<u8>,
    /// View of the chunk id.
    pub chunk_id: Seq<u8>,
    /// The chunk's bytes.
    pub chunk: Seq<u8>,
}

/// Mathematical model of a protocol message.
#[verifier::ext_equal]
pub enum MessagesV {
    /// List the Storm apps supported by the node.
    ListApps,
    /// The set of Storm apps registered with the node, ascending.
    ActiveApps(Seq<StormApp>),
    /// List the topics under the given app.
    ListTopics(StormApp),
    /// The set of topic ids under the app, ascending.
    AppTopics(StormApp, Seq<Seq<u8>>),
    /// Propose a new topic under the app.
    ProposeTopic(StormApp, TopicV),
    /// Post a message under the app.
    Post(StormApp, MesgV),
    /// Read a message or topic by id.
    Read(StormApp, Seq<u8>),
    /// Decline a proposed topic, post or read.
    Decline(StormApp, Seq<u8>),
    /// Accept a posted message.
    Accept(StormApp, Seq<u8>),
    /// Request a container's manifest; the message id carries the access
    /// context.
    PullContainer(StormApp, Seq<u8>, Seq<u8>),
    /// Refuse to provide a container.
    Reject(StormApp, Seq<u8>, Seq<u8>),
    /// Provide a container's manifest.
    PushContainer(StormApp, ContainerV),
    /// Request chunk data.
    PullChunk(ChunkPullV),
    /// Provide the data of one chunk.
    PushChunk(ChunkPushV),
}

/// A protocol message is well formed when its application values are
/// canonical, its identifiers are 32 bytes wide, its sets are strictly
/// ascending and within their count budgets, and its payloads are well
/// formed.
pub open spec fn wf_messages_v(m: MessagesV) -> bool {
    match m {
        MessagesV::ListApps => true,
        MessagesV::ActiveApps(apps) => {
            &&& apps.len() <= u16::MAX
            &&& sorted_apps(apps)
            &&& forall|k: int| 0 <= k < apps.len() ==> (#[trigger] apps[k]).wf()
        },
        MessagesV::ListTopics(app) => app.wf(),
        MessagesV::AppTopics(app, ids) => {
            &&& app.wf()
            &&& ids.len() <= u16::MAX
            &&& sorted_ids(ids)
            &&& forall|k: int| 0 <= k < ids.len() ==> (#[trigger] ids[k]).len() == 32
        },
        MessagesV::ProposeTopic(app, t) => app.wf() && wf_topic_v(t),
        MessagesV::Post(app, msg) => app.wf() && wf_mesg_v(msg),
        MessagesV::Read(app, id) => app.wf() && id.len() == 32,
        MessagesV::Decline(app, id) => app.wf() && id.len() == 32,
        MessagesV::Accept(app, id) => app.wf() && id.len() == 32,
        MessagesV::PullContainer(app, mid, cid) => app.wf() && mid.len() == 32 && cid.len() == 32,
        MessagesV::Reject(app, mid, cid) => app.wf() && mid.len() == 32 && cid.len() == 32,
        MessagesV::PushContainer(app, c) => app.wf() && wf_container_v(c),
        MessagesV::PullChunk(p) => {
            &&& p.app.wf()
            &&& p.message_id.len() == 32
            &&& p.container_id.len() == 32
            &&& p.chunk_ids.len() <= u16::MAX
            &&& sorted_ids(p.chunk_ids)
            &&& forall|k: int| 0 <= k < p.chunk_ids.len() ==> (#[trigger] p.chunk_ids[k]).len()
                == 32
        },
        MessagesV::PushChunk(p) => {
            &&& p.app.wf()
            &&& p.container_id.len() == 32
            &&& p.chunk_id.len() == 32
            &&& p.chunk.len() <= MAX_CHUNK_LEN
        },
    }
}

// --- Application lists on the wire ---

/// Concatenation of application codes, two little-endian bytes each.
pub open spec fn enc_apps(apps: Seq<StormApp>) -> Seq<u8>
    decreases apps.len(),
{
    if apps.len() == 0 {
        Seq::empty()
    } else {
        enc_u16(apps[0].spec_code()) + enc_apps(apps.skip(1))
    }
}

/// Decode `n` application codes at position `i`.
pub open spec fn dec_apps_at(s: Seq<u8>, i: int, n: nat) -> Result<(Seq<StormApp>, int), DecodeError>
    decreases n,
{
    if n == 0 {
        Ok((Seq::empty(), i))
    } else {
        match dec_u16_at(s, i) {
            Err(e) => Err(e),
            Ok((code, j)) => match dec_apps_at(s, j, (n - 1) as nat) {
                Err(e) => Err(e),
                Ok((rest, k)) => Ok((seq![StormApp::spec_from_code(code)] + rest, k)),
            },
        }
    }
}

/// The concatenation of application codes is two bytes per application.
pub proof fn lemma_enc_apps_len(apps: Seq<StormApp>)
    ensures
        enc_apps(apps).len() == 2 * apps.len(),
    decreases apps.len(),
{
    vstd::bytes::lemma_auto_spec_u16_to_from_le_bytes();
    if apps.len() > 0 {
        lemma_enc_apps_len(apps.skip(1));
    }
}

/// A list of canonical applications decodes back from wherever its
/// encoding sits.
pub proof fn lemma_dec_apps(s: Seq<u8>, i: int, apps: Seq<StormApp>)
    requires
        0 <= i,
        forall|k: int| 0 <= k < apps.len() ==> (#[trigger] apps[k]).wf(),
        i + 2 * apps.len() <= s.len(),
        s.subrange(i, i + 2 * apps.len()) == enc_apps(apps),
    ensures
        dec_apps_at(s, i, apps.len()) == Ok::<(Seq<StormApp>, int), DecodeError>(
            (apps, i + 2 * apps.len()),
        ),
    decreases apps.len(),
{
    vstd::bytes::lemma_auto_spec_u16_to_from_le_bytes();
    if apps.len() > 0 {
        let head = apps[0];
        let rest = apps.skip(1);
        lemma_enc_apps_len(rest);
        lemma_subrange_split(s, i, enc_u16(head.spec_code()), enc_apps(rest));
        lemma_dec_u16(s, i, head.spec_code());
        StormApp::lemma_code_roundtrip(head);
        lemma_dec_apps(s, i + 2, rest);
        assert(seq![head] + rest =~= apps);
    } else {
        assert(apps =~= Seq::<StormApp>::empty());
    }
}

/// Appending one application extends the concatenation by its code bytes.
proof fn lemma_enc_apps_snoc(apps: Seq<StormApp>, a: StormApp)
    ensures
        enc_apps(apps.push(a)) == enc_apps(apps) + enc_u16(a.spec_code()),
    decreases apps.len(),
{
    if apps.len() == 0 {
        assert(apps.push(a)[0] == a);
        assert(apps.push(a).skip(1) =~= Seq::<StormApp>::empty());
        assert(enc_apps(Seq::<StormApp>::empty()) == Seq::<u8>::empty());
        assert(enc_apps(apps.push(a)) == enc_u16(a.spec_code()) + Seq::<u8>::empty());
        assert(enc_u16(a.spec_code()) + Seq::<u8>::empty() =~= enc_u16(a.spec_code()));
        assert(enc_apps(apps) + enc_u16(a.spec_code()) =~= enc_u16(a.spec_code()));
    } else {
        assert(apps.push(a)[0] == apps[0]);
        assert(apps.push(a).skip(1) =~= apps.skip(1).push(a));
        lemma_enc_apps_snoc(apps.skip(1), a);
        assert(enc_apps(apps.push(a)) == enc_u16(apps[0].spec_code()) + (enc_apps(apps.skip(1))
            + enc_u16(a.spec_code())));
        assert(enc_u16(apps[0].spec_code()) + (enc_apps(apps.skip(1)) + enc_u16(a.spec_code()))
            =~= (enc_u16(apps[0].spec_code()) + enc_apps(apps.skip(1))) + enc_u16(a.spec_code()));
    }
}

/// Decoding `k + 1` applications extends decoding `k` by one more.
proof fn lemma_dec_apps_prefix_step(s: Seq<u8>, i: int, k: nat, pre: Seq<StormApp>)
    requires
        dec_apps_at(s, i, k) matches Ok(v) && v.0 == pre,
        dec_u16_at(s, dec_apps_at(s, i, k)->Ok_0.1) matches Ok(w),
    ensures
        dec_apps_at(s, i, (k + 1) as nat) == Ok::<(Seq<StormApp>, int), DecodeError>(
            (
                pre.push(StormApp::spec_from_code(dec_u16_at(s, dec_apps_at(s, i, k)->Ok_0.1)->Ok_0.0)),
                dec_u16_at(s, dec_apps_at(s, i, k)->Ok_0.1)->Ok_0.1,
            ),
        ),
    decreases k,
{
    let j = dec_apps_at(s, i, k)->Ok_0.1;
    let code = dec_u16_at(s, j)->Ok_0.0;
    let nxt = dec_u16_at(s, j)->Ok_0.1;
    let a = StormApp::spec_from_code(code);
    if k == 0 {
        assert(j == i && pre == Seq::<StormApp>::empty());
        assert(dec_apps_at(s, nxt, 0) == Ok::<(Seq<StormApp>, int), DecodeError>(
            (Seq::<StormApp>::empty(), nxt),
        ));
        assert(dec_apps_at(s, i, 1) == Ok::<(Seq<StormApp>, int), DecodeError>(
            (seq![a] + Seq::<StormApp>::empty(), nxt),
        ));
        assert(seq![a] + Seq::<StormApp>::empty() =~= pre.push(a));
    } else {
        let (c0, j1) = match dec_u16_at(s, i) {
            Ok(v) => v,
            Err(_) => { proof_from_false() },
        };
        let (rest, _) = match dec_apps_at(s, j1, (k - 1) as nat) {
            Ok(v) => v,
            Err(_) => { proof_from_false() },
        };
        assert(pre == seq![StormApp::spec_from_code(c0)] + rest);
        lemma_dec_apps_prefix_step(s, j1, (k - 1) as nat, rest);
        assert(dec_apps_at(s, i, (k + 1) as nat) == Ok::<(Seq<StormApp>, int), DecodeError>(
            (seq![StormApp::spec_from_code(c0)] + rest.push(a), nxt),
        ));
        assert(seq![StormApp::spec_from_code(c0)] + rest.push(a) =~= (seq![
            StormApp::spec_from_code(c0),
        ] + rest).push(a));
    }
}

/// If `k` applications decode and the next code fails, decoding more than
/// `k` fails the same way.
proof fn lemma_dec_apps_prefix_err(
    s: Seq<u8>,
    i: int,
    k: nat,
    n: nat,
    pre: Seq<StormApp>,
    j: int,
    e: DecodeError,
)
    requires
        k < n,
        dec_apps_at(s, i, k) == Ok::<(Seq<StormApp>, int), DecodeError>((pre, j)),
        dec_u16_at(s, j) == Err::<(u16, int), DecodeError>(e),
    ensures
        dec_apps_at(s, i, n) == Err::<(Seq<StormApp>, int), DecodeError>(e),
    decreases k,
{
    if k == 0 {
        assert(dec_apps_at(s, j, ((n - 1) + 1) as nat) == Err::<(Seq<StormApp>, int), DecodeError>(
            e,
        ));
    } else {
        let (c0, j1) = match dec_u16_at(s, i) {
            Ok(v) => v,
            Err(_) => { proof_from_false() },
        };
        let (rest, _) = match dec_apps_at(s, j1, (k - 1) as nat) {
            Ok(v) => v,
            Err(_) => { proof_from_false() },
        };
        lemma_dec_apps_prefix_err(s, j1, (k - 1) as nat, (n - 1) as nat, rest, j, e);
    }
}

/// Appends a list of application codes.
pub fn write_apps(out: &mut Vec<u8>, apps: &Vec<StormApp>)
    ensures
        final(out)@ == old(out)@ + enc_apps(apps@),
{
    let n = apps.len();
    let mut k: usize = 0;
    proof {
        assert(apps@.subrange(0, 0) =~= Seq::<StormApp>::empty());
        assert(out@ =~= out@ + enc_apps(apps@.subrange(0, 0)));
    }
    while k < n
        invariant
            k <= n,
            n == apps@.len(),
            out@ == old(out)@ + enc_apps(apps@.subrange(0, k as int)),
        decreases n - k,
    {
        proof {
            lemma_enc_apps_snoc(apps@.subrange(0, k as int), apps@[k as int]);
            assert(apps@.subrange(0, k + 1) =~= apps@.subrange(0, k as int).push(apps@[k as int]));
        }
        write_u16(out, apps[k].app_code());
        k += 1;
    }
    assert(apps@.subrange(0, n as int) =~= apps@);
}

/// Reads `n` application codes; every decoded application is canonical.
pub fn read_apps(buf: &Vec<u8>, pos: &mut usize, n: usize) -> (r: Result<Vec<StormApp>, DecodeError>)
    ensures
        match dec_apps_at(buf@, *old(pos) as int, n as nat) {
            Ok(v) => r matches Ok(apps) && apps@ == v.0 && apps@.len() == n && *final(pos) == v.1
                && (forall|k: int| 0 <= k < n ==> (#[trigger] v.0[k]).wf()),
            Err(e) => r matches Err(e2) && e2 == e,
        },
{
    let mut apps: Vec<StormApp> = Vec::new();
    let mut k: usize = 0;
    proof {
        assert(apps@ =~= Seq::<StormApp>::empty());
    }
    while k < n
        invariant
            k <= n,
            apps@.len() == k,
            dec_apps_at(buf@, *old(pos) as int, k as nat) == Ok::<(Seq<StormApp>, int), DecodeError>(
                (apps@, *pos as int),
            ),
            forall|m: int| 0 <= m < k ==> (#[trigger] apps@[m]).wf(),
        decreases n - k,
    {
        let code = match read_u16(buf, pos) {
            Ok(c) => c,
            Err(e) => {
                proof {
                    lemma_dec_apps_prefix_err(buf@, *old(pos) as int, k as nat, n as nat, apps@,
                        *pos as int, e);
                }
                return Err(e);
            },
        };
        let ghost prev = apps@;
        let app = StormApp::from_code(code);
        apps.push(app);
        k += 1;
        proof {
            lemma_dec_apps_prefix_step(buf@, *old(pos) as int, (k - 1) as nat, prev);
            assert(apps@ =~= prev.push(StormApp::spec_from_code(code)));
        }
    }
    Ok(apps)
}

// --- The message set itself ---

/// Storm protocol message: one frame of the peer-to-peer exchange.
#[derive(Clone, Debug)]
pub enum Messages {
    /// List Storm apps supported by the node.
    ListApps,
    /// List of Storm apps registered with the node for public
    /// announcement, strictly ascending.
    ActiveApps(Vec<StormApp>),
    /// List topics under the specified app.
    ListTopics(AppMsg<()>),
    /// Response to a topic listing: the set of topic ids, strictly
    /// ascending.
    AppTopics(AppMsg<Vec<MesgId>>),
    /// Propose to create a new application topic.
    ProposeTopic(AppMsg<Topic>),
    /// Post a message under a specific app and topic; answered by
    /// [`Messages::Accept`] or [`Messages::Decline`].
    Post(AppMsg<Mesg>),
    /// Read a message or a topic from an app.
    Read(AppMsg<MesgId>),
    /// Decline a proposed topic, posted message or read request.
    Decline(AppMsg<MesgId>),
    /// Accept a posted message.
    Accept(AppMsg<MesgId>),
    /// Request a container's manifest; the embedded message id proves the
    /// requester's access rights.
    PullContainer(AppMsg<ContainerFullId>),
    /// Refuse to provide a container.
    Reject(AppMsg<ContainerFullId>),
    /// Provide a container's manifest in response to a pull.
    PushContainer(AppMsg<Container>),
    /// Pull chunk data from a peer.
    PullChunk(ChunkPull),
    /// Response to a chunk pull, carrying one chunk's data.
    PushChunk(ChunkPush),
}

impl View for ChunkPull {
    type V = ChunkPullV;

    open spec fn view(&self) -> ChunkPullV {
        ChunkPullV {
            app: self.app,
            message_id: self.message_id@,
            container_id: self.container_id@,
            chunk_ids: id_views(self.chunk_ids@),
        }
    }
}

impl View for ChunkPush {
    type V = ChunkPushV;

    open spec fn view(&self) -> ChunkPushV {
        ChunkPushV {
            app: self.app,
            container_id: self.container_id@,
            chunk_id: self.chunk_id@,
            chunk: self.chunk@,
        }
    }
}

impl View for Messages {
    type V = MessagesV;

    open spec fn view(&self) -> MessagesV {
        match self {
            Messages::ListApps => MessagesV::ListApps,
            Messages::ActiveApps(apps) => MessagesV::ActiveApps(apps@),
            Messages::ListTopics(m) => MessagesV::ListTopics(m.app),
            Messages::AppTopics(m) => MessagesV::AppTopics(m.app, id_views(m.data@)),
            Messages::ProposeTopic(m) => MessagesV::ProposeTopic(m.app, m.data@),
            Messages::Post(m) => MessagesV::Post(m.app, m.data@),
            Messages::Read(m) => MessagesV::Read(m.app, m.data@),
            Messages::Decline(m) => MessagesV::Decline(m.app, m.data@),
            Messages::Accept(m) => MessagesV::Accept(m.app, m.data@),
            Messages::PullContainer(m) => MessagesV::PullContainer(
                m.app,
                m.data.message_id@,
                m.data.container_id@,
            ),
            Messages::Reject(m) => MessagesV::Reject(
                m.app,
                m.data.message_id@,
                m.data.container_id@,
            ),
            Messages::PushContainer(m) => MessagesV::PushContainer(m.app, m.data@),
            Messages::PullChunk(p) => MessagesV::PullChunk(p@),
            Messages::PushChunk(p) => MessagesV::PushChunk(p@),
        }
    }
}

impl StormMesg for Messages {
    /// Discovery messages belong to the system app; every other variant
    /// carries its application explicitly.
    open spec fn spec_storm_app(&self) -> StormApp {
        match self {
            Messages::ListApps => StormApp::System,
            Messages::ActiveApps(_) => StormApp::System,
            Messages::ListTopics(m) => m.app,
            Messages::AppTopics(m) => m.app,
            Messages::ProposeTopic(m) => m.app,
            Messages::Post(m) => m.app,
            Messages::Read(m) => m.app,
            Messages::Decline(m) => m.app,
            Messages::Accept(m) => m.app,
            Messages::PullContainer(m) => m.app,
            Messages::Reject(m) => m.app,
            Messages::PushContainer(m) => m.app,
            Messages::PullChunk(p) => p.app,
            Messages::PushChunk(p) => p.app,
        }
    }

    fn storm_app(&self) -> (app: StormApp) {
        match self {
            Messages::ListApps => StormApp::System,
            Messages::ActiveApps(_) => StormApp::System,
            Messages::ListTopics(m) => m.storm_app(),
            Messages::AppTopics(m) => m.storm_app(),
            Messages::ProposeTopic(m) => m.storm_app(),
            Messages::Accept(m) => m.storm_app(),
            Messages::PullContainer(m) => m.storm_app(),
            Messages::PushContainer(m) => m.storm_app(),
            Messages::Post(m) => m.storm_app(),
            Messages::Read(m) => m.storm_app(),
            Messages::PushChunk(p) => p.storm_app(),
            Messages::PullChunk(p) => p.storm_app(),
            Messages::Decline(m) => m.storm_app(),
            Messages::Reject(m) => m.storm_app(),
        }
    }
}

/// Serialization of a protocol message: its 2-byte type code, then its
/// fields. The code table is fixed and versioned; it must be reproduced
/// verbatim for interoperability.
pub open spec fn enc_messages_v(m: MessagesV) -> Seq<u8> {
    match m {
        MessagesV::ListApps => enc_u16(MSG_TYPE_LIST_APPS),
        MessagesV::ActiveApps(apps) => enc_u16(MSG_TYPE_ACTIVE_APPS) + enc_u16(apps.len() as u16)
            + enc_apps(apps),
        MessagesV::ListTopics(app) => enc_u16(MSG_TYPE_LIST_TOPICS) + enc_u16(app.spec_code()),
        MessagesV::AppTopics(app, ids) => enc_u16(MSG_TYPE_APP_TOPICS) + enc_u16(app.spec_code())
            + enc_u16(ids.len() as u16) + enc_ids(ids),
        MessagesV::ProposeTopic(app, t) => enc_u16(MSG_TYPE_PROPOSE_TOPIC) + enc_u16(
            app.spec_code(),
        ) + enc_topic_v(t),
        MessagesV::Post(app, msg) => enc_u16(MSG_TYPE_POST) + enc_u16(app.spec_code()) + enc_mesg_v(
            msg,
        ),
        MessagesV::Read(app, id) => enc_u16(MSG_TYPE_READ) + enc_u16(app.spec_code()) + id,
        MessagesV::Decline(app, id) => enc_u16(MSG_TYPE_DECLINE) + enc_u16(app.spec_code()) + id,
        MessagesV::Accept(app, id) => enc_u16(MSG_TYPE_ACCEPT) + enc_u16(app.spec_code()) + id,
        MessagesV::PullContainer(app, mid, cid) => enc_u16(MSG_TYPE_PULL_CONTAINER) + enc_u16(
            app.spec_code(),
        ) + mid + cid,
        MessagesV::Reject(app, mid, cid) => enc_u16(MSG_TYPE_REJECT) + enc_u16(app.spec_code())
            + mid + cid,
        MessagesV::PushContainer(app, c) => enc_u16(MSG_TYPE_PUSH_CONTAINER) + enc_u16(
            app.spec_code(),
        ) + enc_container_v(c),
        MessagesV::PullChunk(p) => enc_u16(MSG_TYPE_PULL_CHUNK) + enc_u16(p.app.spec_code())
            + p.message_id + p.container_id + enc_u16(p.chunk_ids.len() as u16) + enc_ids(
            p.chunk_ids,
        ),
        MessagesV::PushChunk(p) => enc_u16(MSG_TYPE_PUSH_CHUNK) + enc_u16(p.app.spec_code())
            + p.container_id + p.chunk_id + enc_bytes24(p.chunk),
    }
}

/// Decode one protocol message at position `i`.
pub open spec fn dec_messages_at(s: Seq<u8>, i: int) -> Result<(MessagesV, int), DecodeError> {
    match dec_u16_at(s, i) {
        Err(e) => Err(e),
        Ok((code, j)) => if code == MSG_TYPE_LIST_APPS {
            Ok((MessagesV::ListApps, j))
        } else if code == MSG_TYPE_ACTIVE_APPS {
            match dec_u16_at(s, j) {
                Err(e) => Err(e),
                Ok((n, j1)) => match dec_apps_at(s, j1, n as nat) {
                    Err(e) => Err(e),
                    Ok((apps, j2)) => if sorted_apps(apps) {
                        Ok((MessagesV::ActiveApps(apps), j2))
                    } else {
                        Err(DecodeError::UnorderedSet)
                    },
                },
            }
        } else if code == MSG_TYPE_LIST_TOPICS {
            match dec_u16_at(s, j) {
                Err(e) => Err(e),
                Ok((c, j1)) => Ok((MessagesV::ListTopics(StormApp::spec_from_code(c)), j1)),
            }
        } else if code == MSG_TYPE_APP_TOPICS {
            match dec_u16_at(s, j) {
                Err(e) => Err(e),
                Ok((c, j1)) => match dec_u16_at(s, j1) {
                    Err(e) => Err(e),
                    Ok((n, j2)) => match dec_ids_at(s, j2, n as nat) {
                        Err(e) => Err(e),
                        Ok((ids, j3)) => if sorted_ids(ids) {
                            Ok((MessagesV::AppTopics(StormApp::spec_from_code(c), ids), j3))
                        } else {
                            Err(DecodeError::UnorderedSet)
                        },
                    },
                },
            }
        } else if code == MSG_TYPE_PROPOSE_TOPIC {
            match dec_u16_at(s, j) {
                Err(e) => Err(e),
                Ok((c, j1)) => match dec_topic_at(s, j1) {
                    Err(e) => Err(e),
                    Ok((t, j2)) => Ok((MessagesV::ProposeTopic(StormApp::spec_from_code(c), t), j2)),
                },
            }
        } else if code == MSG_TYPE_POST {
            match dec_u16_at(s, j) {
                Err(e) => Err(e),
                Ok((c, j1)) => match dec_mesg_at(s, j1) {
                    Err(e) => Err(e),
                    Ok((msg, j2)) => Ok((MessagesV::Post(StormApp::spec_from_code(c), msg), j2)),
                },
            }
        } else if code == MSG_TYPE_READ {
            match dec_u16_at(s, j) {
                Err(e) => Err(e),
                Ok((c, j1)) => match dec_id32_at(s, j1) {
                    Err(e) => Err(e),
                    Ok((id, j2)) => Ok((MessagesV::Read(StormApp::spec_from_code(c), id), j2)),
                },
            }
        } else if code == MSG_TYPE_DECLINE {
            match dec_u16_at(s, j) {
                Err(e) => Err(e),
                Ok((c, j1)) => match dec_id32_at(s, j1) {
                    Err(e) => Err(e),
                    Ok((id, j2)) => Ok((MessagesV::Decline(StormApp::spec_from_code(c), id), j2)),
                },
            }
        } else if code == MSG_TYPE_ACCEPT {
            match dec_u16_at(s, j) {
                Err(e) => Err(e),
                Ok((c, j1)) => match dec_id32_at(s, j1) {
                    Err(e) => Err(e),
                    Ok((id, j2)) => Ok((MessagesV::Accept(StormApp::spec_from_code(c), id), j2)),
                },
            }
        } else if code == MSG_TYPE_PULL_CONTAINER {
            match dec_u16_at(s, j) {
                Err(e) => Err(e),
                Ok((c, j1)) => match dec_id32_at(s, j1) {
                    Err(e) => Err(e),
                    Ok((mid, j2)) => match dec_id32_at(s, j2) {
                        Err(e) => Err(e),
                        Ok((cid, j3)) => Ok(
                            (MessagesV::PullContainer(StormApp::spec_from_code(c), mid, cid), j3),
                        ),
                    },
                },
            }
        } else if code == MSG_TYPE_REJECT {
            match dec_u16_at(s, j) {
                Err(e) => Err(e),
                Ok((c, j1)) => match dec_id32_at(s, j1) {
                    Err(e) => Err(e),
                    Ok((mid, j2)) => match dec_id32_at(s, j2) {
                        Err(e) => Err(e),
                        Ok((cid, j3)) => Ok(
                            (MessagesV::Reject(StormApp::spec_from_code(c), mid, cid), j3),
                        ),
                    },
                },
            }
        } else if code == MSG_TYPE_PUSH_CONTAINER {
            match dec_u16_at(s, j) {
                Err(e) => Err(e),
                Ok((c, j1)) => match dec_container_at(s, j1) {
                    Err(e) => Err(e),
                    Ok((cont, j2)) => Ok(
                        (MessagesV::PushContainer(StormApp::spec_from_code(c), cont), j2),
                    ),
                },
            }
        } else if code == MSG_TYPE_PULL_CHUNK {
            match dec_u16_at(s, j) {
                Err(e) => Err(e),
                Ok((c, j1)) => match dec_id32_at(s, j1) {
                    Err(e) => Err(e),
                    Ok((mid, j2)) => match dec_id32_at(s, j2) {
                        Err(e) => Err(e),
                        Ok((cid, j3)) => match dec_u16_at(s, j3) {
                            Err(e) => Err(e),
                            Ok((n, j4)) => match dec_ids_at(s, j4, n as nat) {
                                Err(e) => Err(e),
                                Ok((ids, j5)) => if sorted_ids(ids) {
                                    Ok(
                                        (
                                            MessagesV::PullChunk(
                                                ChunkPullV {
                                                    app: StormApp::spec_from_code(c),
                                                    message_id: mid,
                                                    container_id: cid,
                                                    chunk_ids: ids,
                                                },
                                            ),
                                            j5,
                                        ),
                                    )
                                } else {
                                    Err(DecodeError::UnorderedSet)
                                },
                            },
                        },
                    },
                },
            }
        } else if code == MSG_TYPE_PUSH_CHUNK {
            match dec_u16_at(s, j) {
                Err(e) => Err(e),
                Ok((c, j1)) => match dec_id32_at(s, j1) {
                    Err(e) => Err(e),
                    Ok((cid, j2)) => match dec_id32_at(s, j2) {
                        Err(e) => Err(e),
                        Ok((chid, j3)) => match dec_bytes24_at(s, j3) {
                            Err(e) => Err(e),
                            Ok((data, j4)) => Ok(
                                (
                                    MessagesV::PushChunk(
                                        ChunkPushV {
                                            app: StormApp::spec_from_code(c),
                                            container_id: cid,
                                            chunk_id: chid,
                                            chunk: data,
                                        },
                                    ),
                                    j4,
                                ),
                            ),
                        },
                    },
                },
            }
        } else {
            Err(DecodeError::UnknownType)
        },
    }
}

/// Decode one complete frame: one message consuming the whole input.
pub open spec fn messages_decode(s: Seq<u8>) -> Result<MessagesV, DecodeError> {
    match dec_messages_at(s, 0) {
        Err(e) => Err(e),
        Ok((m, j)) => if j == s.len() {
            Ok(m)
        } else {
            Err(DecodeError::TrailingBytes)
        },
    }
}

impl Messages {
    /// A message is well formed when its model is.
    pub open spec fn wf(self) -> bool {
        wf_messages_v(self@)
    }

    /// Serializes the message into one wire frame.
    pub fn encode(&self) -> (r: Vec<u8>)
        requires
            self.wf(),
        ensures
            r@ == enc_messages_v(self@),
    {
        let mut out: Vec<u8> = Vec::new();
        match self {
            Messages::ListApps => {
                write_u16(&mut out, MSG_TYPE_LIST_APPS);
            },
            Messages::ActiveApps(apps) => {
                write_u16(&mut out, MSG_TYPE_ACTIVE_APPS);
                write_u16(&mut out, apps.len() as u16);
                write_apps(&mut out, apps);
            },
            Messages::ListTopics(m) => {
                write_u16(&mut out, MSG_TYPE_LIST_TOPICS);
                write_u16(&mut out, m.app.app_code());
            },
            Messages::AppTopics(m) => {
                write_u16(&mut out, MSG_TYPE_APP_TOPICS);
                write_u16(&mut out, m.app.app_code());
                write_u16(&mut out, m.data.len() as u16);
                write_ids(&mut out, &m.data);
            },
            Messages::ProposeTopic(m) => {
                write_u16(&mut out, MSG_TYPE_PROPOSE_TOPIC);
                write_u16(&mut out, m.app.app_code());
                m.data.write(&mut out);
            },
            Messages::Post(m) => {
                write_u16(&mut out, MSG_TYPE_POST);
                write_u16(&mut out, m.app.app_code());
                m.data.write(&mut out);
            },
            Messages::Read(m) => {
                write_u16(&mut out, MSG_TYPE_READ);
                write_u16(&mut out, m.app.app_code());
                write_id32(&mut out, &m.data.0);
            },
            Messages::Decline(m) => {
                write_u16(&mut out, MSG_TYPE_DECLINE);
                write_u16(&mut out, m.app.app_code());
                write_id32(&mut out, &m.data.0);
            },
            Messages::Accept(m) => {
                write_u16(&mut out, MSG_TYPE_ACCEPT);
                write_u16(&mut out, m.app.app_code());
                write_id32(&mut out, &m.data.0);
            },
            Messages::PullContainer(m) => {
                write_u16(&mut out, MSG_TYPE_PULL_CONTAINER);
                write_u16(&mut out, m.app.app_code());
                write_id32(&mut out, &m.data.message_id.0);
                write_id32(&mut out, &m.data.container_id.0);
            },
            Messages::Reject(m) => {
                write_u16(&mut out, MSG_TYPE_REJECT);
                write_u16(&mut out, m.app.app_code());
                write_id32(&mut out, &m.data.message_id.0);
                write_id32(&mut out, &m.data.container_id.0);
            },
            Messages::PushContainer(m) => {
                write_u16(&mut out, MSG_TYPE_PUSH_CONTAINER);
                write_u16(&mut out, m.app.app_code());
                m.data.write(&mut out);
            },
            Messages::PullChunk(p) => {
                write_u16(&mut out, MSG_TYPE_PULL_CHUNK);
                write_u16(&mut out, p.app.app_code());
                write_id32(&mut out, &p.message_id.0);
                write_id32(&mut out, &p.container_id.0);
                write_u16(&mut out, p.chunk_ids.len() as u16);
                write_ids(&mut out, &p.chunk_ids);
            },
            Messages::PushChunk(p) => {
                write_u16(&mut out, MSG_TYPE_PUSH_CHUNK);
                write_u16(&mut out, p.app.app_code());
                write_id32(&mut out, &p.container_id.0);
                write_id32(&mut out, &p.chunk_id.0);
                p.chunk.write(&mut out);
            },
        }
        proof {
            assert(out@ =~= enc_messages_v(self@));
        }
        out
    }

    /// Parses one complete wire frame into a message; rejects unknown type
    /// codes, malformed fields, unordered sets and trailing bytes.
    pub fn decode(frame: &Vec<u8>) -> (r: Result<Messages, DecodeError>)
        ensures
            match messages_decode(frame@) {
                Ok(v) => r matches Ok(m) && m@ == v && m.wf(),
                Err(e) => r matches Err(e2) && e2 == e,
            },
    {
        let mut pos: usize = 0;
        let code = match read_u16(frame, &mut pos) {
            Ok(c) => c,
            Err(e) => {
                return Err(e);
            },
        };
        let msg: Messages = if code == MSG_TYPE_LIST_APPS {
            Messages::ListApps
        } else if code == MSG_TYPE_ACTIVE_APPS {
            let n = read_u16(frame, &mut pos)?;
            let apps = read_apps(frame, &mut pos, n as usize)?;
            if !check_sorted_apps(&apps) {
                return Err(DecodeError::UnorderedSet);
            }
            Messages::ActiveApps(apps)
        } else if code == MSG_TYPE_LIST_TOPICS {
            let c = read_u16(frame, &mut pos)?;
            Messages::ListTopics(AppMsg { app: StormApp::from_code(c), data: () })
        } else if code == MSG_TYPE_APP_TOPICS {
            let c = read_u16(frame, &mut pos)?;
            let n = read_u16(frame, &mut pos)?;
            let ids = read_ids::<MesgId>(frame, &mut pos, n as usize)?;
            if !check_sorted_ids(&ids) {
                return Err(DecodeError::UnorderedSet);
            }
            Messages::AppTopics(AppMsg { app: StormApp::from_code(c), data: ids })
        } else if code == MSG_TYPE_PROPOSE_TOPIC {
            let c = read_u16(frame, &mut pos)?;
            let t = Topic::read(frame, &mut pos)?;
            Messages::ProposeTopic(AppMsg { app: StormApp::from_code(c), data: t })
        } else if code == MSG_TYPE_POST {
            let c = read_u16(frame, &mut pos)?;
            let m = Mesg::read(frame, &mut pos)?;
            Messages::Post(AppMsg { app: StormApp::from_code(c), data: m })
        } else if code == MSG_TYPE_READ {
            let c = read_u16(frame, &mut pos)?;
            let id = read_id32(frame, &mut pos)?;
            Messages::Read(AppMsg { app: StormApp::from_code(c), data: MesgId(id) })
        } else if code == MSG_TYPE_DECLINE {
            let c = read_u16(frame, &mut pos)?;
            let id = read_id32(frame, &mut pos)?;
            Messages::Decline(AppMsg { app: StormApp::from_code(c), data: MesgId(id) })
        } else if code == MSG_TYPE_ACCEPT {
            let c = read_u16(frame, &mut pos)?;
            let id = read_id32(frame, &mut pos)?;
            Messages::Accept(AppMsg { app: StormApp::from_code(c), data: MesgId(id) })
        } else if code == MSG_TYPE_PULL_CONTAINER {
            let c = read_u16(frame, &mut pos)?;
            let mid = read_id32(frame, &mut pos)?;
            let cid = read_id32(frame, &mut pos)?;
            Messages::PullContainer(
                AppMsg {
                    app: StormApp::from_code(c),
                    data: ContainerFullId { message_id: MesgId(mid), container_id: ContainerId(cid) },
                },
            )
        } else if code == MSG_TYPE_REJECT {
            let c = read_u16(frame, &mut pos)?;
            let mid = read_id32(frame, &mut pos)?;
            let cid = read_id32(frame, &mut pos)?;
            Messages::Reject(
                AppMsg {
                    app: StormApp::from_code(c),
                    data: ContainerFullId { message_id: MesgId(mid), container_id: ContainerId(cid) },
                },
            )
        } else if code == MSG_TYPE_PUSH_CONTAINER {
            let c = read_u16(frame, &mut pos)?;
            let cont = Container::read(frame, &mut pos)?;
            Messages::PushContainer(AppMsg { app: StormApp::from_code(c), data: cont })
        } else if code == MSG_TYPE_PULL_CHUNK {
            let c = read_u16(frame, &mut pos)?;
            let mid = read_id32(frame, &mut pos)?;
            let cid = read_id32(frame, &mut pos)?;
            let n = read_u16(frame, &mut pos)?;
            let ids = read_ids::<ChunkId>(frame, &mut pos, n as usize)?;
            if !check_sorted_ids(&ids) {
                return Err(DecodeError::UnorderedSet);
            }
            Messages::PullChunk(
                ChunkPull {
                    app: StormApp::from_code(c),
                    message_id: MesgId(mid),
                    container_id: ContainerId(cid),
                    chunk_ids: ids,
                },
            )
        } else if code == MSG_TYPE_PUSH_CHUNK {
            let c = read_u16(frame, &mut pos)?;
            let cid = read_id32(frame, &mut pos)?;
            let chid = read_id32(frame, &mut pos)?;
            let chunk = Chunk::read(frame, &mut pos)?;
            Messages::PushChunk(
                ChunkPush {
                    app: StormApp::from_code(c),
                    container_id: ContainerId(cid),
                    chunk_id: ChunkId(chid),
                    chunk,
                },
            )
        } else {
            return Err(DecodeError::UnknownType);
        };
        if pos != frame.len() {
            return Err(DecodeError::TrailingBytes);
        }
        proof {
            let v = dec_messages_at(frame@, 0)->Ok_0.0;
            assert(msg@ =~= v);
        }
        Ok(msg)
    }
}

/// A protocol message decodes back from wherever its encoding sits.
pub proof fn lemma_dec_messages(s: Seq<u8>, i: int, v: MessagesV)
    requires
        0 <= i,
        wf_messages_v(v),
        i + enc_messages_v(v).len() <= s.len(),
        s.subrange(i, i + enc_messages_v(v).len()) == enc_messages_v(v),
    ensures
        dec_messages_at(s, i) == Ok::<(MessagesV, int), DecodeError>(
            (v, i + enc_messages_v(v).len()),
        ),
{
    vstd::bytes::lemma_auto_spec_u16_to_from_le_bytes();
    match v {
        MessagesV::ListApps => {
            lemma_dec_u16(s, i, MSG_TYPE_LIST_APPS);
        },
        MessagesV::ActiveApps(apps) => {
            let p1 = enc_u16(MSG_TYPE_ACTIVE_APPS);
            let p2 = enc_u16(apps.len() as u16);
            let p3 = enc_apps(apps);
            lemma_enc_apps_len(apps);
            assert(enc_messages_v(v) =~= p1 + (p2 + p3));
            lemma_subrange_split(s, i, p1, p2 + p3);
            lemma_dec_u16(s, i, MSG_TYPE_ACTIVE_APPS);
            lemma_subrange_split(s, i + 2, p2, p3);
            lemma_dec_u16(s, i + 2, apps.len() as u16);
            lemma_dec_apps(s, i + 4, apps);
        },
        MessagesV::ListTopics(app) => {
            let p1 = enc_u16(MSG_TYPE_LIST_TOPICS);
            let p2 = enc_u16(app.spec_code());
            assert(enc_messages_v(v) =~= p1 + p2);
            lemma_subrange_split(s, i, p1, p2);
            lemma_dec_u16(s, i, MSG_TYPE_LIST_TOPICS);
            lemma_dec_u16(s, i + 2, app.spec_code());
            StormApp::lemma_code_roundtrip(app);
        },
        MessagesV::AppTopics(app, ids) => {
            let p1 = enc_u16(MSG_TYPE_APP_TOPICS);
            let p2 = enc_u16(app.spec_code());
            let p3 = enc_u16(ids.len() as u16);
            let p4 = enc_ids(ids);
            lemma_enc_ids_len(ids);
            assert(enc_messages_v(v) =~= p1 + (p2 + (p3 + p4)));
            lemma_subrange_split(s, i, p1, p2 + (p3 + p4));
            lemma_dec_u16(s, i, MSG_TYPE_APP_TOPICS);
            lemma_subrange_split(s, i + 2, p2, p3 + p4);
            lemma_dec_u16(s, i + 2, app.spec_code());
            StormApp::lemma_code_roundtrip(app);
            lemma_subrange_split(s, i + 4, p3, p4);
            lemma_dec_u16(s, i + 4, ids.len() as u16);
            lemma_dec_ids(s, i + 6, ids);
        },
        MessagesV::ProposeTopic(app, t) => {
            let p1 = enc_u16(MSG_TYPE_PROPOSE_TOPIC);
            let p2 = enc_u16(app.spec_code());
            let p3 = enc_topic_v(t);
            assert(enc_messages_v(v) =~= p1 + (p2 + p3));
            lemma_subrange_split(s, i, p1, p2 + p3);
            lemma_dec_u16(s, i, MSG_TYPE_PROPOSE_TOPIC);
            lemma_subrange_split(s, i + 2, p2, p3);
            lemma_dec_u16(s, i + 2, app.spec_code());
            StormApp::lemma_code_roundtrip(app);
            lemma_dec_topic(s, i + 4, t);
        },
        MessagesV::Post(app, msg) => {
            let p1 = enc_u16(MSG_TYPE_POST);
            let p2 = enc_u16(app.spec_code());
            let p3 = enc_mesg_v(msg);
            assert(enc_messages_v(v) =~= p1 + (p2 + p3));
            lemma_subrange_split(s, i, p1, p2 + p3);
            lemma_dec_u16(s, i, MSG_TYPE_POST);
            lemma_subrange_split(s, i + 2, p2, p3);
            lemma_dec_u16(s, i + 2, app.spec_code());
            StormApp::lemma_code_roundtrip(app);
            lemma_dec_mesg(s, i + 4, msg);
        },
        MessagesV::Read(app, id) => {
            let p1 = enc_u16(MSG_TYPE_READ);
            let p2 = enc_u16(app.spec_code());
            assert(enc_messages_v(v) =~= p1 + (p2 + id));
            lemma_subrange_split(s, i, p1, p2 + id);
            lemma_dec_u16(s, i, MSG_TYPE_READ);
            lemma_subrange_split(s, i + 2, p2, id);
            lemma_dec_u16(s, i + 2, app.spec_code());
            StormApp::lemma_code_roundtrip(app);
            lemma_dec_id32(s, i + 4, id);
        },
        MessagesV::Decline(app, id) => {
            let p1 = enc_u16(MSG_TYPE_DECLINE);
            let p2 = enc_u16(app.spec_code());
            assert(enc_messages_v(v) =~= p1 + (p2 + id));
            lemma_subrange_split(s, i, p1, p2 + id);
            lemma_dec_u16(s, i, MSG_TYPE_DECLINE);
            lemma_subrange_split(s, i + 2, p2, id);
            lemma_dec_u16(s, i + 2, app.spec_code());
            StormApp::lemma_code_roundtrip(app);
            lemma_dec_id32(s, i + 4, id);
        },
        MessagesV::Accept(app, id) => {
            let p1 = enc_u16(MSG_TYPE_ACCEPT);
            let p2 = enc_u16(app.spec_code());
            assert(enc_messages_v(v) =~= p1 + (p2 + id));
            lemma_subrange_split(s, i, p1, p2 + id);
            lemma_dec_u16(s, i, MSG_TYPE_ACCEPT);
            lemma_subrange_split(s, i + 2, p2, id);
            lemma_dec_u16(s, i + 2, app.spec_code());
            StormApp::lemma_code_roundtrip(app);
            lemma_dec_id32(s, i + 4, id);
        },
        MessagesV::PullContainer(app, mid, cid) => {
            let p1 = enc_u16(MSG_TYPE_PULL_CONTAINER);
            let p2 = enc_u16(app.spec_code());
            assert(enc_messages_v(v) =~= p1 + (p2 + (mid + cid)));
            lemma_subrange_split(s, i, p1, p2 + (mid + cid));
            lemma_dec_u16(s, i, MSG_TYPE_PULL_CONTAINER);
            lemma_subrange_split(s, i + 2, p2, mid + cid);
            lemma_dec_u16(s, i + 2, app.spec_code());
            StormApp::lemma_code_roundtrip(app);
            lemma_subrange_split(s, i + 4, mid, cid);
            lemma_dec_id32(s, i + 4, mid);
            lemma_dec_id32(s, i + 36, cid);
        },
        MessagesV::Reject(app, mid, cid) => {
            let p1 = enc_u16(MSG_TYPE_REJECT);
            let p2 = enc_u16(app.spec_code());
            assert(enc_messages_v(v) =~= p1 + (p2 + (mid + cid)));
            lemma_subrange_split(s, i, p1, p2 + (mid + cid));
            lemma_dec_u16(s, i, MSG_TYPE_REJECT);
            lemma_subrange_split(s, i + 2, p2, mid + cid);
            lemma_dec_u16(s, i + 2, app.spec_code());
            StormApp::lemma_code_roundtrip(app);
            lemma_subrange_split(s, i + 4, mid, cid);
            lemma_dec_id32(s, i + 4, mid);
            lemma_dec_id32(s, i + 36, cid);
        },
        MessagesV::PushContainer(app, c) => {
            let p1 = enc_u16(MSG_TYPE_PUSH_CONTAINER);
            let p2 = enc_u16(app.spec_code());
            let p3 = enc_container_v(c);
            assert(enc_messages_v(v) =~= p1 + (p2 + p3));
            lemma_subrange_split(s, i, p1, p2 + p3);
            lemma_dec_u16(s, i, MSG_TYPE_PUSH_CONTAINER);
            lemma_subrange_split(s, i + 2, p2, p3);
            lemma_dec_u16(s, i + 2, app.spec_code());
            StormApp::lemma_code_roundtrip(app);
            lemma_dec_container(s, i + 4, c);
        },
        MessagesV::PullChunk(p) => {
            let p1 = enc_u16(MSG_TYPE_PULL_CHUNK);
            let p2 = enc_u16(p.app.spec_code());
            let p3 = p.message_id;
            let p4 = p.container_id;
            let p5 = enc_u16(p.chunk_ids.len() as u16);
            let p6 = enc_ids(p.chunk_ids);
            lemma_enc_ids_len(p.chunk_ids);
            assert(enc_messages_v(v) =~= p1 + (p2 + (p3 + (p4 + (p5 + p6)))));
            lemma_subrange_split(s, i, p1, p2 + (p3 + (p4 + (p5 + p6))));
            lemma_dec_u16(s, i, MSG_TYPE_PULL_CHUNK);
            lemma_subrange_split(s, i + 2, p2, p3 + (p4 + (p5 + p6)));
            lemma_dec_u16(s, i + 2, p.app.spec_code());
            StormApp::lemma_code_roundtrip(p.app);
            lemma_subrange_split(s, i + 4, p3, p4 + (p5 + p6));
            lemma_dec_id32(s, i + 4, p3);
            lemma_subrange_split(s, i + 36, p4, p5 + p6);
            lemma_dec_id32(s, i + 36, p4);
            lemma_subrange_split(s, i + 68, p5, p6);
            lemma_dec_u16(s, i + 68, p.chunk_ids.len() as u16);
            lemma_dec_ids(s, i + 70, p.chunk_ids);
        },
        MessagesV::PushChunk(p) => {
            let p1 = enc_u16(MSG_TYPE_PUSH_CHUNK);
            let p2 = enc_u16(p.app.spec_code());
            let p3 = p.container_id;
            let p4 = p.chunk_id;
            let p5 = enc_bytes24(p.chunk);
            assert(enc_messages_v(v) =~= p1 + (p2 + (p3 + (p4 + p5))));
            lemma_subrange_split(s, i, p1, p2 + (p3 + (p4 + p5)));
            lemma_dec_u16(s, i, MSG_TYPE_PUSH_CHUNK);
            lemma_subrange_split(s, i + 2, p2, p3 + (p4 + p5));
            lemma_dec_u16(s, i + 2, p.app.spec_code());
            StormApp::lemma_code_roundtrip(p.app);
            lemma_subrange_split(s, i + 4, p3, p4 + p5);
            lemma_dec_id32(s, i + 4, p3);
            lemma_subrange_split(s, i + 36, p4, p5);
            lemma_dec_id32(s, i + 36, p4);
            lemma_dec_bytes24(s, i + 68, p.chunk);
        },
    }
}

/// Law: the wire encoding round-trips. Decoding the frame a well-formed
/// protocol message serializes to yields that very message, for every
/// variant of the message set.
pub proof fn lemma_messages_roundtrip(v: MessagesV)
    requires
        wf_messages_v(v),
    ensures
        messages_decode(enc_messages_v(v)) == Ok::<MessagesV, DecodeError>(v),
{
    let s = enc_messages_v(v);
    assert(s.subrange(0, s.len() as int) =~= s);
    lemma_dec_messages(s, 0, v);
}

} // verus!
