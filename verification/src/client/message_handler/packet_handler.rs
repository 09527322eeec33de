//! The packet dispatcher: the single funnel through which every outbound
//! packet passes, and the dispatch of inbound packets by payload variant.

use vstd::prelude::*;
use std::collections::HashMap;
use crossbeam_channel::Sender;
use crate::channels::chan_send;
use crate::client::{ledger_key, ClientState, SentRecord, SentRecordView};
use crate::packet::{spec_fragment_index, NodeId, Packet, PacketType, PacketView};

pub mod ack_handler;
pub mod flood_handler;
pub mod fragment_handler;
pub mod nack_handler;
pub mod node_messages;

verus! {

broadcast use vstd::std_specs::hash::group_hash_axioms;

/// The views of a packet list.
pub open spec fn packet_views(s: Seq<Packet>) -> Seq<PacketView> {
    s.map_values(|p: Packet| p@)
}

/// The views of a ledger.
pub open spec fn ledger_view(m: Map<u128, Packet>) -> Map<u128, PacketView> {
    m.map_values(|p: Packet| p@)
}

/// The send-log records of handing `packets` to `next_hop`, in order.
pub open spec fn records_of(packets: Seq<PacketView>, next_hop: NodeId) -> Seq<SentRecordView> {
    packets.map_values(|p: PacketView| SentRecordView { next_hop, packet: p })
}

/// The ledger after recording the first `n` of `packets`, each under the
/// key formed from its own identity.
pub open spec fn ledger_extend(m: Map<u128, PacketView>, packets: Seq<PacketView>, n: int) -> Map<
    u128,
    PacketView,
>
    decreases n,
{
    if n <= 0 {
        m
    } else {
        ledger_extend(m, packets, n - 1).insert(
            ledger_key(spec_fragment_index(packets[n - 1]), packets[n - 1].session_id),
            packets[n - 1],
        )
    }
}

/// Recording packets keyed by their own identity preserves the ledger's
/// key consistency.
pub proof fn lemma_ledger_extend_wf(m: Map<u128, PacketView>, packets: Seq<PacketView>, n: int)
    requires
        forall|k: u128| #[trigger] m.contains_key(k) ==> ledger_key(
            spec_fragment_index(m[k]),
            m[k].session_id,
        ) == k,
        n <= packets.len(),
    ensures
        forall|k: u128| #[trigger] ledger_extend(m, packets, n).contains_key(k) ==> ledger_key(
            spec_fragment_index(ledger_extend(m, packets, n)[k]),
            ledger_extend(m, packets, n)[k].session_id,
        ) == k,
    decreases n,
{
    if n > 0 {
        lemma_ledger_extend_wf(m, packets, n - 1);
    }
}

impl ClientState {
    /// The outbound channel toward `node_id`, if it is a neighbor.
    pub fn get_sender(node_id: NodeId, senders: &HashMap<NodeId, Sender<Packet>>) -> (r: Result<
        Sender<Packet>,
        String,
    >)
        ensures
            r is Ok <==> senders@.contains_key(node_id),
    {
        if let Some(sender) = senders.get(&node_id) {
            return Ok(crate::channels::chan_clone_sender(sender));
        }
        Err("No neighbour with this id found".to_owned())
    }

    /// Hand one packet to a neighbor channel.
    pub(crate) fn send_packet(sender: &Sender<Packet>, packet: &Packet) -> (r: Result<(), String>)
    {
        if chan_send(sender, packet.dup()) {
            Ok(())
        } else {
            Err("Tried sending packet but an error occurred".to_owned())
        }
    }

    /// Send a batch of packets to `next_hop`: each is handed to the
    /// neighbor channel, recorded in the delivery ledger under its own
    /// identity, and announced to the controlling authority.  An unknown
    /// neighbor fails the whole batch untouched; a failed send aborts the
    /// remaining packets, and packets already sent are not rolled back.
    #[verifier::loop_isolation(false)]
    pub fn send_packets_vec(&mut self, packets: &Vec<Packet>, next_hop: NodeId) -> (r: Result<
        (),
        String,
    >)
        requires
            old(self).wf(),
        ensures
            final(self).wf(),
            *final(self) == (ClientState {
                packets_history: final(self).packets_history,
                sent_log: final(self).sent_log,
                ..*old(self)
            }),
            !old(self).senders@.contains_key(next_hop) ==> r is Err && *final(self) == *old(self),
            old(self).senders@.contains_key(next_hop) ==> exists|n: int|
                {
                    &&& 0 <= n <= packets@.len()
                    &&& (r is Ok ==> n == packets@.len())
                    &&& (r is Err ==> n < packets@.len())
                    &&& #[trigger] crate::client::log_view(final(self).sent_log@) ==
                        crate::client::log_view(old(self).sent_log@) + records_of(
                        packet_views(packets@),
                        next_hop,
                    ).take(if r is Ok {
                        n
                    } else {
                        n + 1
                    })
                    &&& ledger_view(final(self).packets_history@) == ledger_extend(
                        ledger_view(old(self).packets_history@),
                        packet_views(packets@),
                        n,
                    )
                },
    {
        let sender = match Self::get_sender(next_hop, &self.senders) {
            Ok(s) => s,
            Err(e) => {
                return Err(e);
            },
        };
        let ghost pvs = packet_views(packets@);
        let ghost recs = records_of(pvs, next_hop);
        let ghost log0 = crate::client::log_view(self.sent_log@);
        let ghost led0 = ledger_view(self.packets_history@);
        let n = packets.len();
        let mut i: usize = 0;
        proof {
            assert(crate::client::log_view(self.sent_log@) =~= log0 + recs.take(0));
        }
        while i < n
            invariant
                i <= n,
                n == packets@.len(),
                self.wf(),
                *self == (ClientState {
                    packets_history: self.packets_history,
                    sent_log: self.sent_log,
                    ..*old(self)
                }),
                crate::client::log_view(self.sent_log@) == log0 + recs.take(i as int),
                ledger_view(self.packets_history@) == ledger_extend(led0, pvs, i as int),
            decreases n - i,
        {
            let packet = &packets[i];
            let ghost pre_log = self.sent_log@;
            self.sent_log.push(SentRecord { next_hop, packet: packet.dup() });
            proof {
                assert(crate::client::log_view(self.sent_log@) =~= crate::client::log_view(
                    pre_log,
                ).push(self.sent_log@.last()@));
                assert(crate::client::log_view(pre_log).push(self.sent_log@.last()@) =~= log0
                    + recs.take(i as int + 1));
            }
            if let Err(err) = Self::send_packet(&sender, packet) {
                return Err(err);
            }
            let key = crate::client::ledger_key_exec(packet.get_fragment_index(), packet.session_id);
            let ghost pre_led = ledger_view(self.packets_history@);
            self.packets_history.insert(key, packet.dup());
            proof {
                assert(ledger_view(self.packets_history@) =~= pre_led.insert(key, pvs[i as int]));
                lemma_ledger_extend_wf(led0, pvs, i as int + 1);
                assert forall|k: u128| #[trigger] self.packets_history@.contains_key(k) implies
                    ledger_key(
                        spec_fragment_index(self.packets_history@[k]@),
                        self.packets_history@[k]@.session_id,
                    ) == k by {
                    assert(ledger_view(self.packets_history@).contains_key(k));
                    assert(ledger_view(self.packets_history@)[k] == self.packets_history@[k]@);
                }
            }
            self.event_dispatcher(packet);
            i = i + 1;
        }
        Ok(())
    }

    /// The payload variant of a packet, as text.
    pub fn get_packet_type(pt: &PacketType) -> (r: String)
        ensures
            r@ == spec_packet_type_name(pt@),
    {
        match pt {
            PacketType::Ack(_) => "Ack".to_owned(),
            PacketType::Nack(_) => "Nack".to_owned(),
            PacketType::FloodRequest(_) => "Flood request".to_owned(),
            PacketType::FloodResponse(_) => "Flood response".to_owned(),
            PacketType::MsgFragment(_) => "Fragment".to_owned(),
        }
    }
}

/// The text name of a payload variant.
pub open spec fn spec_packet_type_name(pt: crate::packet::PacketTypeView) -> Seq<char> {
    match pt {
        crate::packet::PacketTypeView::Ack(_) => "Ack"@,
        crate::packet::PacketTypeView::Nack(_) => "Nack"@,
        crate::packet::PacketTypeView::FloodRequest(_) => "Flood request"@,
        crate::packet::PacketTypeView::FloodResponse(_) => "Flood response"@,
        crate::packet::PacketTypeView::MsgFragment(_) => "Fragment"@,
    }
}

/// The passive congestion observation every inbound packet causes: only
/// the routing oracle's counters change.
pub open spec fn observe_effect(pre: ClientState, post: ClientState, hops: Seq<NodeId>) -> bool {
    &&& post == (ClientState { routing_handler: post.routing_handler, ..pre })
    &&& post.routing_handler.spec_congestion() == crate::routing::bump_all(
        pre.routing_handler.spec_congestion(),
        hops,
    )
    &&& post.routing_handler.spec_paths() == pre.routing_handler.spec_paths()
}

/// The known-server set after reading a flood response's trace: every node
/// tagged as a server joins, in trace order, unless already known.
pub open spec fn servers_after(
    servers: Seq<NodeId>,
    trace: Seq<(NodeId, crate::packet::NodeType)>,
) -> Seq<NodeId>
    decreases trace.len(),
{
    if trace.len() == 0 {
        servers
    } else {
        let rest = trace.drop_first();
        if trace[0].1 == crate::packet::NodeType::Server && !servers.contains(trace[0].0) {
            servers_after(servers.push(trace[0].0), rest)
        } else {
            servers_after(servers, rest)
        }
    }
}

/// Joining discovered servers preserves distinctness of the server set.
pub proof fn lemma_servers_after_no_duplicates(
    servers: Seq<NodeId>,
    trace: Seq<(NodeId, crate::packet::NodeType)>,
)
    requires
        servers.no_duplicates(),
    ensures
        servers_after(servers, trace).no_duplicates(),
    decreases trace.len(),
{
    if trace.len() > 0 {
        let rest = trace.drop_first();
        if trace[0].1 == crate::packet::NodeType::Server && !servers.contains(trace[0].0) {
            assert(servers.push(trace[0].0).no_duplicates()) by {
                assert forall|a: int, b: int|
                    0 <= a < b < servers.push(trace[0].0).len() implies servers.push(
                    trace[0].0,
                )[a] != servers.push(trace[0].0)[b] by {
                    if b < servers.len() {
                    } else {
                        assert(servers.push(trace[0].0)[a] == servers[a]);
                        assert(servers.push(trace[0].0)[b] == trace[0].0);
                    }
                }
            }
            lemma_servers_after_no_duplicates(servers.push(trace[0].0), rest);
        } else {
            lemma_servers_after_no_duplicates(servers, rest);
        }
    }
}

/// Whether a list of node ids holds `id`.
fn contains_id(v: &Vec<NodeId>, id: NodeId) -> (r: bool)
    ensures
        r == v@.contains(id),
{
    let n = v.len();
    let mut i: usize = 0;
    while i < n
        invariant
            i <= n,
            n == v@.len(),
            forall|j: int| 0 <= j < i ==> v@[j] != id,
        decreases n - i,
    {
        if v[i] == id {
            proof {
                assert(v@[i as int] == id);
            }
            return true;
        }
        i = i + 1;
    }
    false
}

impl ClientState {
    /// Dispatch one inbound packet.  Its route is first observed for
    /// congestion sampling; a packet that is not addressed to this node is
    /// logged and dropped (flood requests are for everyone); the payload
    /// then goes to the matching handler.
    pub fn packet_handler(&mut self, packet: Packet)
        requires
            old(self).wf(),
            old(self).status != crate::client::Status::Terminated,
            old(self).flood_id < u64::MAX,
            old(self).packet_forge.spec_next_session() < u64::MAX,
        ensures
            final(self).wf(),
            crate::client::status_forward(old(self).status, final(self).status),
            final(self).status != crate::client::Status::Terminated,
            final(self).flood_id >= old(self).flood_id,
            *final(self) == (ClientState {
                flood_id: final(self).flood_id,
                servers_id: final(self).servers_id,
                packet_forge: final(self).packet_forge,
                status: final(self).status,
                db: final(self).db,
                routing_handler: final(self).routing_handler,
                packets_map: final(self).packets_map,
                song_map: final(self).song_map,
                packets_history: final(self).packets_history,
                client_song_map: final(self).client_song_map,
                sent_log: final(self).sent_log,
                notified: final(self).notified,
                ..*old(self)
            }),
            exists|mid: ClientState|
                {
                    &&& #[trigger] observe_effect(
                        *old(self),
                        mid,
                        packet@.routing_header.hops,
                    )
                    &&& {
                        let addressed = packet@.pack_type is FloodRequest || (
                        packet@.routing_header.hops.len() > 0 && packet@.routing_header.hops.last()
                            == old(self).id);
                        if !addressed {
                            *final(self) == mid
                        } else {
                            match packet@.pack_type {
                                crate::packet::PacketTypeView::Ack(a) => {
                                    &&& final(self).packets_history@ == mid.packets_history@.remove(
                                        crate::client::ledger_key(
                                            a.fragment_index,
                                            packet@.session_id,
                                        ),
                                    )
                                    &&& *final(self) == (ClientState {
                                        packets_history: final(self).packets_history,
                                        ..mid
                                    })
                                },
                                crate::packet::PacketTypeView::MsgFragment(f) => {
                                    crate::client::message_handler::packet_handler::fragment_handler::fragment_buffer_outcome(
                                        mid,
                                        *final(self),
                                        f,
                                        packet@,
                                    )
                                },
                                crate::packet::PacketTypeView::FloodResponse(fr) => {
                                    &&& final(self).servers_id@ == servers_after(
                                        mid.servers_id@,
                                        fr.path_trace,
                                    )
                                    &&& final(self).routing_handler.spec_paths()
                                        == crate::routing::paths_after_trace(
                                        mid.routing_handler.spec_paths(),
                                        crate::packet::trace_ids(fr.path_trace),
                                        fr.path_trace.len() as int,
                                    )
                                    &&& final(self).routing_handler.spec_congestion()
                                        == mid.routing_handler.spec_congestion()
                                    &&& *final(self) == (ClientState {
                                        servers_id: final(self).servers_id,
                                        routing_handler: final(self).routing_handler,
                                        ..mid
                                    })
                                },
                                crate::packet::PacketTypeView::FloodRequest(req) => {
                                    crate::client::message_handler::packet_handler::flood_handler::flood_request_outcome(
                                        mid,
                                        *final(self),
                                        req,
                                    )
                                },
                                crate::packet::PacketTypeView::Nack(n) => {
                                    packet@.routing_header.hops.len() > 0
                                        ==> crate::client::message_handler::packet_handler::nack_handler::nack_outcome(
                                        mid,
                                        *final(self),
                                        n,
                                        packet@.session_id,
                                        packet@.routing_header.hops[0],
                                    )
                                },
                            }
                        }
                    }
                },
    {
        self.routing_handler.nodes_congestion(&packet.routing_header);
        let ghost mid = *self;
        proof {
            assert(observe_effect(*old(self), mid, packet@.routing_header.hops));
        }
        match &packet.pack_type {
            PacketType::FloodRequest(_) => {},
            _ => {
                let hops_len = packet.routing_header.hops.len();
                if hops_len == 0 || packet.routing_header.hops[hops_len - 1] != self.get_id() {
                    // addressed to another node: logged and dropped
                    return;
                }
            },
        }
        match &packet.pack_type {
            PacketType::MsgFragment(fragment) => {
                self.fragment_handler(fragment, &packet);
            },
            PacketType::FloodResponse(flood_res) => {
                self.routing_handler.update_graph(flood_res);
                let ghost rh1 = self.routing_handler;
                let ghost full = flood_res@.path_trace;
                let ghost servers0 = self.servers_id@;
                let n = flood_res.path_trace.len();
                let mut i: usize = 0;
                proof {
                    assert(full.skip(0) =~= full);
                }
                while i < n
                    invariant
                        i <= n,
                        n == full.len(),
                        flood_res@.path_trace == full,
                        self.servers_id@.no_duplicates(),
                        servers_after(servers0, full) == servers_after(
                            self.servers_id@,
                            full.skip(i as int),
                        ),
                        *self == (ClientState {
                            servers_id: self.servers_id,
                            routing_handler: self.routing_handler,
                            ..mid
                        }),
                        self.routing_handler == rh1,
                    decreases n - i,
                {
                    proof {
                        assert(full.skip(i as int)[0] == full[i as int]);
                        assert(full.skip(i as int).drop_first() =~= full.skip(i as int + 1));
                        assert(flood_res.path_trace@[i as int] == full[i as int]);
                    }
                    let entry = &flood_res.path_trace[i];
                    if entry.1 == crate::packet::NodeType::Server && !contains_id(
                        &self.servers_id,
                        entry.0,
                    ) {
                        let ghost pre = self.servers_id@;
                        self.servers_id.push(entry.0);
                        proof {
                            assert forall|a: int, b: int|
                                0 <= a < b < self.servers_id@.len() implies self.servers_id@[a]
                                != self.servers_id@[b] by {
                                if b < pre.len() {
                                    assert(self.servers_id@[a] == pre[a]);
                                    assert(self.servers_id@[b] == pre[b]);
                                } else {
                                    assert(self.servers_id@[b] == full[i as int].0);
                                    assert(self.servers_id@[a] == pre[a]);
                                }
                            }
                        }
                    }
                    i = i + 1;
                }
                proof {
                    assert(full.skip(n as int) =~= Seq::<(NodeId, crate::packet::NodeType)>::empty());
                }
            },
            PacketType::FloodRequest(flood_req) => {
                self.handle_flood_request(flood_req);
            },
            PacketType::Ack(ack) => {
                self.ack_handler(packet.session_id, ack.fragment_index);
            },
            PacketType::Nack(nack) => {
                let reporter = packet.routing_header.hops[0];
                self.nack_handler(nack, packet.session_id, reporter);
            },
        }
    }
}

} // verus!
