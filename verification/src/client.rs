//! The session: all mutable engine state of one client, and the phase the
//! client is in.

use vstd::prelude::*;
use std::collections::HashMap;
use crossbeam_channel::{Receiver, Sender};
use crate::channels::chan_clone_sender;
use crate::codec::PacketForge;
use crate::database::AudioDatabase;
use crate::message::FileHash;
use crate::packet::{Fragment, NodeId, Packet, PacketView, spec_fragment_index, FragmentView};
use crate::routing::RoutingHandler;

pub mod message_handler;

verus! {

broadcast use vstd::std_specs::hash::group_hash_axioms;

/// The phase of a session; transitions only move forward, and `Terminated`
/// is terminal.
#[derive(Clone, Copy, Debug, PartialEq, Eq, Structural)]
pub enum Status {
    Starting,
    Idle,
    Running,
    Terminated,
}

/// The forward order of the phases.
pub open spec fn status_rank(s: Status) -> int {
    match s {
        Status::Starting => 0,
        Status::Idle => 1,
        Status::Running => 2,
        Status::Terminated => 3,
    }
}

/// A transition the state machine allows: never backwards, and out of
/// `Terminated` not at all.
pub open spec fn status_forward(pre: Status, post: Status) -> bool {
    status_rank(post) >= status_rank(pre)
}

/// A command from the controlling authority.
#[derive(Debug)]
pub enum DroneCommand {
    AddSender(NodeId, Sender<Packet>),
    RemoveSender(NodeId),
    Crash,
    /// Carried on the command channel for relay nodes; a client rejects it
    /// as unsupported.
    SetPacketDropRate,
}

/// An event toward the controlling authority.
#[derive(Debug)]
pub enum DroneEvent {
    PacketSent(Packet),
    ControllerShortcut(Packet),
}

/// Mathematical model of a [`SentRecord`].
pub ghost struct SentRecordView {
    pub next_hop: NodeId,
    pub packet: PacketView,
}

/// One packet handed to a neighbor channel, kept for diagnostics: the
/// record is appended at the moment the send is attempted.
#[derive(Debug)]
pub struct SentRecord {
    pub next_hop: NodeId,
    pub packet: Packet,
}

impl View for SentRecord {
    type V = SentRecordView;

    open spec fn view(&self) -> SentRecordView {
        SentRecordView { next_hop: self.next_hop, packet: self.packet@ }
    }
}

/// The views of a send log.
pub open spec fn log_view(s: Seq<SentRecord>) -> Seq<SentRecordView> {
    s.map_values(|r: SentRecord| r@)
}

/// The delivery-ledger key of a packet identity: fragment index (or the
/// zero control tag) paired with the session id.
pub open spec fn ledger_key(fragment_index: u64, session_id: u64) -> u128 {
    (fragment_index * 0x1_0000_0000_0000_0000 + session_id) as u128
}

/// Exec computation of [`ledger_key`].
pub fn ledger_key_exec(fragment_index: u64, session_id: u64) -> (k: u128)
    ensures
        k == ledger_key(fragment_index, session_id),
{
    (fragment_index as u128) * 0x1_0000_0000_0000_0000 + (session_id as u128)
}

/// Two distinct packet identities never share a ledger key.
pub proof fn lemma_ledger_key_injective(f1: u64, s1: u64, f2: u64, s2: u64)
    ensures
        ledger_key(f1, s1) == ledger_key(f2, s2) ==> f1 == f2 && s1 == s2,
{
    assert(ledger_key(f1, s1) == ledger_key(f2, s2) ==> f1 == f2 && s1 == s2)
        by (nonlinear_arith);
}

/// The reassembly-buffer key of an in-flight message: origin node paired
/// with the session id.
pub open spec fn reassembly_key(origin: NodeId, session_id: u64) -> u128 {
    (origin * 0x1_0000_0000_0000_0000 + session_id) as u128
}

/// Exec computation of [`reassembly_key`].
pub fn reassembly_key_exec(origin: NodeId, session_id: u64) -> (k: u128)
    ensures
        k == reassembly_key(origin, session_id),
{
    (origin as u128) * 0x1_0000_0000_0000_0000 + (session_id as u128)
}

/// Two distinct (origin, session) pairs never share a reassembly key.
pub proof fn lemma_reassembly_key_injective(o1: NodeId, s1: u64, o2: NodeId, s2: u64)
    ensures
        reassembly_key(o1, s1) == reassembly_key(o2, s2) ==> o1 == o2 && s1 == s2,
{
    assert(reassembly_key(o1, s1) == reassembly_key(o2, s2) ==> o1 == o2 && s1 == s2)
        by (nonlinear_arith);
}

/// The waiter and segment-cache key: content id paired with segment index.
pub open spec fn chunk_key(file_hash: FileHash, segment: u32) -> u64 {
    (file_hash * 0x1_0000_0000 + segment) as u64
}

/// Exec computation of [`chunk_key`].
pub fn chunk_key_exec(file_hash: FileHash, segment: u32) -> (k: u64)
    ensures
        k == chunk_key(file_hash, segment),
{
    (file_hash as u64) * 0x1_0000_0000 + (segment as u64)
}

/// Two distinct (content, segment) pairs never share a chunk key.
pub proof fn lemma_chunk_key_injective(f1: FileHash, s1: u32, f2: FileHash, s2: u32)
    ensures
        chunk_key(f1, s1) == chunk_key(f2, s2) ==> f1 == f2 && s1 == s2,
{
    assert(chunk_key(f1, s1) == chunk_key(f2, s2) ==> f1 == f2 && s1 == s2) by (nonlinear_arith);
}

/// A resting reassembly buffer: at least one fragment, all with one total,
/// every index below it, no index twice, and not yet complete (a complete
/// buffer is assembled and removed at once).
pub open spec fn buffer_wf(frags: Seq<FragmentView>) -> bool {
    &&& 0 < frags.len()
    &&& forall|i: int| 0 <= i < frags.len() ==> (#[trigger] frags[i]).total_n_fragments
        == frags[0].total_n_fragments
    &&& forall|i: int| 0 <= i < frags.len() ==> (#[trigger] frags[i]).fragment_index
        < frags[0].total_n_fragments
    &&& forall|i: int, j: int| 0 <= i < j < frags.len() ==> (#[trigger] frags[i]).fragment_index
        != (#[trigger] frags[j]).fragment_index
    &&& frags.len() < frags[0].total_n_fragments
}

/// All mutable engine state, exclusively owned by the client.
pub struct ClientState {
    /// This client's node id within the overlay.
    pub id: NodeId,
    /// The last issued flood-discovery round id.
    pub flood_id: u64,
    /// The node ids discovered to host the content-catalogue service.
    pub servers_id: Vec<NodeId>,
    /// Event channel toward the controlling authority.
    pub controller_send: Sender<DroneEvent>,
    /// Command channel from the controlling authority.
    pub controller_recv: Receiver<DroneCommand>,
    /// Inbound raw packets.
    pub packet_recv: Receiver<Packet>,
    /// Per-neighbor outbound channels.
    pub senders: HashMap<NodeId, Sender<Packet>>,
    /// The neighbor ids, mirroring the keys of `senders`.
    pub neighbor_ids: Vec<NodeId>,
    /// One-shot waiters keyed by [`chunk_key`], woken when a segment reply
    /// arrives.
    pub inner_senders: HashMap<u64, Sender<bool>>,
    /// Session-id allocation and the message codec.
    pub packet_forge: PacketForge,
    /// The session phase.
    pub status: Status,
    /// The local content store.
    pub db: AudioDatabase,
    /// The routing oracle.
    pub routing_handler: RoutingHandler,
    /// Reassembly buffers keyed by [`reassembly_key`].
    pub packets_map: HashMap<u128, Vec<Fragment>>,
    /// Received segment payloads keyed by [`chunk_key`], awaiting pick-up.
    pub song_map: HashMap<u64, Vec<u8>>,
    /// The delivery ledger keyed by [`ledger_key`]: the last packet sent
    /// for each identity that is not yet acknowledged.
    pub packets_history: HashMap<u128, Packet>,
    /// Which peer serves each content id, from peer-list replies.
    pub client_song_map: HashMap<FileHash, NodeId>,
    /// Every packet handed to a neighbor channel, in order of attempt.
    pub sent_log: Vec<SentRecord>,
    /// Ghost record of every waiter wake attempt, as (chunk key, value)
    /// pairs in firing order; appended exactly when a registered waiter's
    /// one-shot channel is fired.
    pub notified: Ghost<Seq<(u64, bool)>>,
}

impl ClientState {
    /// The link table is mirrored by the neighbor list and never holds a
    /// channel for this client's own id.
    pub open spec fn wf_links(&self) -> bool {
        &&& self.neighbor_ids@.no_duplicates()
        &&& forall|i: int| 0 <= i < self.neighbor_ids@.len() ==> self.senders@.contains_key(
            #[trigger] self.neighbor_ids@[i],
        )
        &&& forall|k: NodeId| #[trigger] self.senders@.contains_key(k)
            ==> self.neighbor_ids@.contains(k)
        &&& !self.senders@.contains_key(self.id)
    }

    /// Every ledger entry sits under the key formed from its own packet.
    pub open spec fn wf_ledger(&self) -> bool {
        forall|k: u128| #[trigger] self.packets_history@.contains_key(k) ==> ledger_key(
            spec_fragment_index(self.packets_history@[k]@),
            self.packets_history@[k]@.session_id,
        ) == k
    }

    /// Every resting reassembly buffer is well formed.
    pub open spec fn wf_buffers(&self) -> bool {
        forall|k: u128| #[trigger] self.packets_map@.contains_key(k) ==> buffer_wf(
            self.packets_map@[k]@.map_values(|f: Fragment| f@),
        )
    }

    /// The internal invariant of a session, established by the constructor
    /// and preserved by every engine operation.
    pub open spec fn wf(&self) -> bool {
        &&& self.wf_links()
        &&& self.wf_ledger()
        &&& self.wf_buffers()
        &&& self.servers_id@.no_duplicates()
        &&& self.routing_handler.wf()
        &&& self.db.wf()
    }

    /// A fresh session: `Starting`, nothing discovered, nothing in flight.
    /// Channels for this client's own id are ignored, as is any id given
    /// twice.
    pub fn new(
        id: NodeId,
        controller_send: Sender<DroneEvent>,
        controller_recv: Receiver<DroneCommand>,
        packet_recv: Receiver<Packet>,
        senders: Vec<(NodeId, Sender<Packet>)>,
    ) -> (r: Self)
        ensures
            r.wf(),
            r.id == id,
            r.flood_id == 0,
            r.status == Status::Starting,
            r.servers_id@ == Seq::<NodeId>::empty(),
            r.controller_send == controller_send,
            r.controller_recv == controller_recv,
            r.packet_recv == packet_recv,
            forall|k: NodeId| #[trigger] r.senders@.contains_key(k) <==> (k != id && exists|
                i: int,
            | 0 <= i < senders@.len() && (#[trigger] senders@[i]).0 == k),
            r.packet_forge.spec_next_session() == 0,
            r.db@.songs == Seq::<crate::message::SongMetaDataView>::empty(),
            r.db@.segments == Map::<u64, Seq<u8>>::empty(),
            forall|dst: NodeId| r.routing_handler.spec_path(dst) is None,
            r.packets_map@ == Map::<u128, Vec<Fragment>>::empty(),
            r.song_map@ == Map::<u64, Vec<u8>>::empty(),
            r.packets_history@ == Map::<u128, Packet>::empty(),
            r.client_song_map@ == Map::<FileHash, NodeId>::empty(),
            r.inner_senders@ == Map::<u64, Sender<bool>>::empty(),
            r.sent_log@ == Seq::<SentRecord>::empty(),
            r.notified@ == Seq::<(u64, bool)>::empty(),
    {
        let mut map: HashMap<NodeId, Sender<Packet>> = HashMap::new();
        let mut neighbor_ids: Vec<NodeId> = Vec::new();
        let n = senders.len();
        let mut i: usize = 0;
        while i < n
            invariant
                i <= n,
                n == senders@.len(),
                neighbor_ids@.no_duplicates(),
                forall|j: int| 0 <= j < neighbor_ids@.len() ==> map@.contains_key(
                    #[trigger] neighbor_ids@[j],
                ),
                forall|k: NodeId| #[trigger] map@.contains_key(k) ==> neighbor_ids@.contains(k),
                !map@.contains_key(id),
                forall|k: NodeId| #[trigger] map@.contains_key(k) <==> (k != id && exists|j: int|
                    0 <= j < i && (#[trigger] senders@[j]).0 == k),
            decreases n - i,
        {
            let pair = &senders[i];
            if pair.0 != id && !map.contains_key(&pair.0) {
                let ghost pre_ids = neighbor_ids@;
                map.insert(pair.0, chan_clone_sender(&pair.1));
                neighbor_ids.push(pair.0);
                proof {
                    assert forall|k: NodeId| #[trigger] map@.contains_key(k) implies
                        neighbor_ids@.contains(k) by {
                        if k == pair.0 {
                            assert(neighbor_ids@[pre_ids.len() as int] == k);
                        } else {
                            let w = choose|w: int| 0 <= w < pre_ids.len() && pre_ids[w] == k;
                            assert(neighbor_ids@[w] == k);
                        }
                    }
                }
            }
            i = i + 1;
        }
        let r = ClientState {
            id,
            flood_id: 0,
            servers_id: Vec::new(),
            controller_send,
            controller_recv,
            packet_recv,
            senders: map,
            neighbor_ids,
            inner_senders: HashMap::new(),
            packet_forge: PacketForge::new(),
            status: Status::Starting,
            db: AudioDatabase::new(),
            routing_handler: RoutingHandler::new(),
            packets_map: HashMap::new(),
            song_map: HashMap::new(),
            packets_history: HashMap::new(),
            client_song_map: HashMap::new(),
            sent_log: Vec::new(),
            notified: Ghost(Seq::empty()),
        };
        proof {
            assert(r.servers_id@ =~= Seq::<NodeId>::empty());
            assert(r.sent_log@ =~= Seq::<SentRecord>::empty());
            assert(r.packets_map@ =~= Map::<u128, Vec<Fragment>>::empty());
            assert(r.song_map@ =~= Map::<u64, Vec<u8>>::empty());
            assert(r.packets_history@ =~= Map::<u128, Packet>::empty());
            assert(r.client_song_map@ =~= Map::<FileHash, NodeId>::empty());
            assert(r.inner_senders@ =~= Map::<u64, Sender<bool>>::empty());
        }
        r
    }

    /// This client's node id.
    pub fn get_id(&self) -> (r: NodeId)
        ensures
            r == self.id,
    {
        self.id
    }

    /// The session phase.
    pub fn get_status(&self) -> (r: Status)
        ensures
            r == self.status,
    {
        self.status
    }

    /// Whether the session has reached `Running`.
    pub fn is_running(&self) -> (r: bool)
        ensures
            r == (self.status == Status::Running),
    {
        self.status == Status::Running
    }

    /// Register a one-shot waiter for (content, segment); the engine wakes
    /// it when the segment's reply arrives or its request fails to go out.
    pub fn register_waiter(&mut self, file_hash: FileHash, segment: u32, waiter: Sender<bool>)
        ensures
            final(self).inner_senders@ == old(self).inner_senders@.insert(
                chunk_key(file_hash, segment),
                waiter,
            ),
            *final(self) == (ClientState {
                inner_senders: final(self).inner_senders,
                ..*old(self)
            }),
    {
        let key = chunk_key_exec(file_hash, segment);
        self.inner_senders.insert(key, waiter);
    }

    /// Take a received segment payload out of the cache, if it arrived.
    pub fn take_song(&mut self, file_hash: FileHash, segment: u32) -> (r: Option<Vec<u8>>)
        ensures
            final(self).song_map@ == old(self).song_map@.remove(chunk_key(file_hash, segment)),
            *final(self) == (ClientState { song_map: final(self).song_map, ..*old(self) }),
            r is Some <==> old(self).song_map@.contains_key(chunk_key(file_hash, segment)),
            r matches Some(v) ==> v@ == old(self).song_map@[chunk_key(file_hash, segment)]@,
    {
        let key = chunk_key_exec(file_hash, segment);
        self.song_map.remove(&key)
    }
}

} // verus!
