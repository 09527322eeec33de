//! The discovery engine: flood request origination and flood request
//! answering.

use vstd::prelude::*;
use crate::client::{log_view, ClientState, DroneEvent, SentRecord, SentRecordView};
use crate::packet::{
    trace_ids, FloodRequest, FloodRequestView, FloodResponseView, NodeId, NodeType, Packet,
    PacketTypeView, PacketView, SourceRoutingHeader, SrhView,
};

verus! {

broadcast use vstd::std_specs::hash::group_hash_axioms;

/// The flood-request packet one discovery round hands to every neighbor:
/// an empty routing header, a fresh session id, and a trace holding only
/// the initiator.
pub open spec fn flood_request_packet(id: NodeId, flood_id: u64, session_id: u64) -> PacketView {
    PacketView {
        routing_header: SrhView { hops: Seq::<NodeId>::empty(), hop_index: 0 },
        session_id,
        pack_type: PacketTypeView::FloodRequest(
            FloodRequestView {
                flood_id,
                initiator_id: id,
                path_trace: seq![(id, NodeType::Client)],
            },
        ),
    }
}

/// The send-log records of one discovery round: one attempt per neighbor,
/// in neighbor order.
pub open spec fn flood_records(neighbors: Seq<NodeId>, p: PacketView) -> Seq<SentRecordView> {
    neighbors.map_values(|h: NodeId| SentRecordView { next_hop: h, packet: p })
}

/// The effect of one discovery round on a session: a fresh round id and a
/// fresh session id are allocated, and the flood request is handed to
/// every neighbor (best effort, nothing else changes).
pub open spec fn flood_effect(pre: ClientState, post: ClientState) -> bool {
    &&& post == (ClientState {
        flood_id: post.flood_id,
        packet_forge: post.packet_forge,
        sent_log: post.sent_log,
        ..pre
    })
    &&& post.flood_id == pre.flood_id + 1
    &&& post.packet_forge.spec_next_session() == pre.packet_forge.spec_next_session() + 1
    &&& log_view(post.sent_log@) == log_view(pre.sent_log@) + flood_records(
        pre.neighbor_ids@,
        flood_request_packet(pre.id, (pre.flood_id + 1) as u64, pre.packet_forge.spec_next_session()),
    )
}

/// The flood response answering `req` at `node_id`: the trace with this
/// node appended, retraced backwards, with the cursor already past the
/// responder itself.
pub open spec fn flood_response_packet(node_id: NodeId, req: FloodRequestView) -> PacketView {
    PacketView {
        routing_header: SrhView {
            hops: trace_ids(req.path_trace.push((node_id, NodeType::Client))).reverse(),
            hop_index: 1,
        },
        session_id: 1,
        pack_type: PacketTypeView::FloodResponse(
            FloodResponseView {
                flood_id: req.flood_id,
                path_trace: req.path_trace.push((node_id, NodeType::Client)),
            },
        ),
    }
}

/// The hop a flood response is forwarded to, if the reversed trace has one.
pub open spec fn flood_response_dest(node_id: NodeId, req: FloodRequestView) -> Option<NodeId> {
    let hops = trace_ids(req.path_trace.push((node_id, NodeType::Client))).reverse();
    if hops.len() >= 2 {
        Some(hops[1])
    } else {
        None
    }
}

/// What answering one flood request does to a session: the response is
/// built from the trace with this node appended; with no next hop, or no
/// channel for it, nothing changes; otherwise exactly one forwarding
/// attempt is logged.
pub open spec fn flood_request_outcome(
    pre: ClientState,
    post: ClientState,
    req: FloodRequestView,
) -> bool {
    &&& post == (ClientState { sent_log: post.sent_log, ..pre })
    &&& match flood_response_dest(pre.id, req) {
        None => post == pre,
        Some(d) => if pre.senders@.contains_key(d) {
            log_view(post.sent_log@) == log_view(pre.sent_log@) + seq![
                (SentRecordView { next_hop: d, packet: flood_response_packet(pre.id, req) }),
            ]
        } else {
            post == pre
        },
    }
}

impl ClientState {
    /// Allocate the next flood-discovery round id; each round's id is
    /// strictly greater than every id issued before it.
    pub fn get_flood_id(&mut self) -> (r: u64)
        requires
            old(self).flood_id < u64::MAX,
        ensures
            final(self).flood_id == old(self).flood_id + 1,
            r == final(self).flood_id,
            *final(self) == (ClientState { flood_id: final(self).flood_id, ..*old(self) }),
    {
        self.flood_id = self.flood_id + 1;
        self.flood_id
    }

    /// Start one discovery round: allocate a fresh round id, build the
    /// flood request, and hand one copy to every neighbor.  A neighbor
    /// whose channel rejects the packet does not abort the fan-out (best
    /// effort).
    #[verifier::loop_isolation(false)]
    pub fn init_flood_request(&mut self)
        requires
            old(self).wf(),
            old(self).flood_id < u64::MAX,
            old(self).packet_forge.spec_next_session() < u64::MAX,
        ensures
            final(self).wf(),
            flood_effect(*old(self), *final(self)),
    {
        let flood_id = self.get_flood_id();
        let session_id = self.packet_forge.get_session_id();
        let ghost p = flood_request_packet(self.id, flood_id, session_id);
        let ghost neighbors = self.neighbor_ids@;
        let ghost log0 = log_view(self.sent_log@);
        let n = self.neighbor_ids.len();
        let mut i: usize = 0;
        proof {
            assert(log0 + flood_records(neighbors, p).take(0) =~= log0);
        }
        while i < n
            invariant
                i <= n,
                n == neighbors.len(),
                self.neighbor_ids@ == neighbors,
                self.wf(),
                self.flood_id == old(self).flood_id + 1,
                self.flood_id == flood_id,
                self.packet_forge.spec_next_session() == old(self).packet_forge.spec_next_session()
                    + 1,
                session_id == old(self).packet_forge.spec_next_session(),
                p == flood_request_packet(old(self).id, flood_id, session_id),
                *self == (ClientState {
                    flood_id: self.flood_id,
                    packet_forge: self.packet_forge,
                    sent_log: self.sent_log,
                    ..*old(self)
                }),
                log_view(self.sent_log@) == log0 + flood_records(neighbors, p).take(i as int),
            decreases n - i,
        {
            let hop = self.neighbor_ids[i];
            let sender = match Self::get_sender(hop, &self.senders) {
                Ok(s) => s,
                Err(_) => {
                    // cannot happen: every neighbor id has a channel
                    proof {
                        assert(false);
                    }
                    return;
                },
            };
            let flood_req = FloodRequest {
                flood_id,
                initiator_id: self.id,
                path_trace: vec![(self.get_id(), NodeType::Client)],
            };
            let packet = Packet::new_flood_request(
                SourceRoutingHeader::new(Vec::new(), 0),
                session_id,
                flood_req,
            );
            proof {
                assert(packet@.pack_type matches PacketTypeView::FloodRequest(f) ==> f.path_trace
                    =~= seq![(old(self).id, NodeType::Client)]);
                assert(packet@.routing_header.hops =~= Seq::<NodeId>::empty());
                assert(packet@ == p);
            }
            let ghost pre_log = self.sent_log@;
            self.sent_log.push(SentRecord { next_hop: hop, packet: packet.dup() });
            proof {
                assert(log_view(self.sent_log@) =~= log_view(pre_log).push(
                    self.sent_log@.last()@,
                ));
                assert(log_view(self.sent_log@) =~= log0 + flood_records(neighbors, p).take(
                    i as int + 1,
                ));
            }
            let _ = Self::send_packet(&sender, &packet);
            self.event_dispatcher(&packet);
            i = i + 1;
        }
        proof {
            assert(flood_records(neighbors, p).take(n as int) =~= flood_records(neighbors, p));
        }
    }

    /// Answer a received flood request: convert it into a response that
    /// retraces the accumulated path and forward it toward the next hop.
    /// A trace with no next hop leaves the response dropped with a logged
    /// error; a forwarding failure is handled by [`Self::send_flood_response`].
    pub fn handle_flood_request(&mut self, message: &FloodRequest)
        requires
            old(self).wf(),
        ensures
            final(self).wf(),
            flood_request_outcome(*old(self), *final(self), message@),
    {
        let (dest, packet) = Self::build_flood_response(self.get_id(), message);
        match dest {
            Some(d) => {
                let _ = self.send_flood_response(d, &packet);
            },
            None => {
                // isolated responder: the response has nowhere to go and is
                // dropped with a logged error
            },
        }
    }

    /// Forward a flood response to its next hop; when handing it to the
    /// channel fails, fall back to the controller shortcut, and failure of
    /// both is terminal for this response.
    pub fn send_flood_response(&mut self, dest: NodeId, packet: &Packet) -> (r: Result<(), String>)
        requires
            old(self).wf(),
        ensures
            final(self).wf(),
            *final(self) == (ClientState { sent_log: final(self).sent_log, ..*old(self) }),
            !old(self).senders@.contains_key(dest) ==> r is Err && *final(self) == *old(self),
            old(self).senders@.contains_key(dest) ==> log_view(final(self).sent_log@) == log_view(
                old(self).sent_log@,
            ) + seq![(SentRecordView { next_hop: dest, packet: packet@ })],
    {
        let sender = match Self::get_sender(dest, &self.senders) {
            Ok(s) => s,
            Err(err) => {
                return Err(err);
            },
        };
        let ghost pre_log = self.sent_log@;
        self.sent_log.push(SentRecord { next_hop: dest, packet: packet.dup() });
        proof {
            assert(log_view(self.sent_log@) =~= log_view(pre_log).push(self.sent_log@.last()@));
            assert(log_view(self.sent_log@) =~= log_view(pre_log) + seq![
                (SentRecordView { next_hop: dest, packet: packet@ }),
            ]);
        }
        if let Err(_err) = Self::send_packet(&sender, packet) {
            // channel refused the response: try the controller shortcut
            let res = Self::sc_send_packet(
                &self.controller_send,
                DroneEvent::ControllerShortcut(packet.dup()),
            );
            if res.is_err() {
                return Err("Unable to forward packet to neither next hop nor SC".to_owned());
            }
        }
        self.event_dispatcher(packet);
        Ok(())
    }

    /// Build the flood response for a received request: append this node to
    /// the trace, reverse it into a routing header, and advance the cursor
    /// past this node; the destination is the next hop of that header, if
    /// the trace has one.
    pub fn build_flood_response(node_id: NodeId, flood_req: &FloodRequest) -> (r: (
        Option<NodeId>,
        Packet,
    ))
        ensures
            r.1@ == flood_response_packet(node_id, flood_req@),
            r.0 == flood_response_dest(node_id, flood_req@),
    {
        let mut req = flood_req.dup();
        req.path_trace.push((node_id, NodeType::Client));
        let mut packet = req.generate_response(1);
        packet.routing_header.increase_hop_index();
        let dest = packet.routing_header.current_hop();
        proof {
            assert(trace_ids(req@.path_trace).reverse().len() == req@.path_trace.len());
        }
        (dest, packet)
    }
}

} // verus!
