//! NACK interpretation of the reliability engine: penalties, path repair
//! and retransmission.

use vstd::prelude::*;
use crate::client::{ledger_key, ledger_key_exec, log_view, ClientState, SentRecordView};
use crate::client::message_handler::packet_handler::{ledger_view, packet_views, records_of};
use crate::client::message_handler::packet_handler::flood_handler::flood_effect;
use crate::packet::{
    spec_fragment_index, Nack, NackType, NodeId, Packet, PacketView, SrhView,
};
use crate::routing::bump;

verus! {

broadcast use vstd::std_specs::hash::group_hash_axioms;

/// The packet `p` re-dispatched along `path`: the same identity and
/// payload under a fresh routing header whose cursor designates the first
/// forwarding hop.
pub open spec fn repacked(p: PacketView, path: Seq<NodeId>) -> PacketView {
    PacketView {
        routing_header: SrhView { hops: path, hop_index: 1 },
        session_id: p.session_id,
        pack_type: p.pack_type,
    }
}

/// What one retransmission attempt of `p` does to the send log and the
/// delivery ledger: nothing when `p` has no destination, when the oracle
/// knows no path, or when the path's first hop has no channel; otherwise
/// exactly one attempt is logged, and the ledger entry is replaced with the
/// re-dispatched packet when the channel accepted it.
pub open spec fn retransmit_outcome(pre: ClientState, post: ClientState, p: PacketView) -> bool {
    if p.routing_header.hops.len() == 0 {
        post.sent_log == pre.sent_log && post.packets_history == pre.packets_history
    } else {
        match pre.routing_handler.spec_best_path(pre.id, p.routing_header.hops.last()) {
            None => post.sent_log == pre.sent_log && post.packets_history == pre.packets_history,
            Some(path) => if pre.senders@.contains_key(path[1]) {
                &&& log_view(post.sent_log@) == log_view(pre.sent_log@) + seq![
                    (SentRecordView { next_hop: path[1], packet: repacked(p, path) }),
                ]
                &&& (ledger_view(post.packets_history@) == ledger_view(pre.packets_history@)
                    || ledger_view(post.packets_history@) == ledger_view(
                    pre.packets_history@,
                ).insert(
                    ledger_key(spec_fragment_index(p), p.session_id),
                    repacked(p, path),
                ))
            } else {
                post.sent_log == pre.sent_log && post.packets_history == pre.packets_history
            },
        }
    }
}

/// What interpreting one negative acknowledgement does to a session.
pub open spec fn nack_outcome(
    pre: ClientState,
    post: ClientState,
    message: Nack,
    session_id: u64,
    node_id: NodeId,
) -> bool {
    &&& post == (ClientState {
        flood_id: post.flood_id,
        packet_forge: post.packet_forge,
        routing_handler: post.routing_handler,
        packets_history: post.packets_history,
        sent_log: post.sent_log,
        ..pre
    })
    &&& !pre.packets_history@.contains_key(ledger_key(message.fragment_index, session_id))
        ==> post == pre
    &&& pre.packets_history@.contains_key(ledger_key(message.fragment_index, session_id)) ==> {
        let p = pre.packets_history@[ledger_key(message.fragment_index, session_id)]@;
        match message.nack_type {
            NackType::Dropped => {
                &&& post.flood_id == pre.flood_id
                &&& post.packet_forge == pre.packet_forge
                &&& post.routing_handler.spec_congestion() == bump(
                    pre.routing_handler.spec_congestion(),
                    node_id,
                )
                &&& post.routing_handler.spec_paths() == pre.routing_handler.spec_paths()
                &&& retransmit_outcome(pre, post, p)
            },
            NackType::DestinationIsDrone => post == pre,
            NackType::ErrorInRouting(_) => exists|mid: ClientState|
                {
                    &&& #[trigger] flood_effect(pre, mid)
                    &&& retransmit_outcome(mid, post, p)
                    &&& post == (ClientState {
                        packets_history: post.packets_history,
                        sent_log: post.sent_log,
                        ..mid
                    })
                },
            NackType::UnexpectedRecipient(_) => post == pre,
        }
    }
}

impl ClientState {
    /// Ask the routing oracle for a fresh best path to the packet's final
    /// destination and re-dispatch the packet along it; with no path the
    /// retransmission is given up (a future NACK or discovery round must
    /// re-trigger it).
    pub fn retransmit_packet(&mut self, packet: &Packet, fragment_index: u64, session_id: u64)
        requires
            old(self).wf(),
        ensures
            final(self).wf(),
            *final(self) == (ClientState {
                packets_history: final(self).packets_history,
                sent_log: final(self).sent_log,
                ..*old(self)
            }),
            retransmit_outcome(*old(self), *final(self), packet@),
    {
        if packet.routing_header.hops.len() == 0 {
            return;
        }
        let dest = packet.routing_header.hops[packet.routing_header.hops.len() - 1];
        let id = self.get_id();
        let srh = match self.routing_handler.best_path(id, dest) {
            Some(srh) => srh,
            None => {
                return;
            },
        };
        proof {
            assert(srh@.hops.len() >= 2);
        }
        let next_hop = srh.hops[1];
        let new_packet = Packet {
            routing_header: srh,
            session_id: packet.session_id,
            pack_type: packet.pack_type.dup(),
        };
        let mut batch: Vec<Packet> = Vec::new();
        batch.push(new_packet);
        let ghost path = old(self).routing_handler.spec_best_path(old(self).id, packet@.routing_header.hops.last()).unwrap();
        let ghost pvs = packet_views(batch@);
        let ghost led0 = ledger_view(self.packets_history@);
        proof {
            assert(pvs =~= seq![repacked(packet@, path)]);
            assert(records_of(pvs, next_hop) =~= seq![
                (SentRecordView { next_hop: path[1], packet: repacked(packet@, path) }),
            ]);
            reveal_with_fuel(crate::client::message_handler::packet_handler::ledger_extend, 3);
            assert(crate::client::message_handler::packet_handler::ledger_extend(led0, pvs, 0)
                == led0);
            assert(spec_fragment_index(pvs[0]) == spec_fragment_index(packet@));
            assert(crate::client::message_handler::packet_handler::ledger_extend(led0, pvs, 1)
                == led0.insert(
                ledger_key(spec_fragment_index(packet@), packet@.session_id),
                repacked(packet@, path),
            ));
        }
        if !self.senders.contains_key(&next_hop) {
            return;
        }
        let res = self.send_packets_vec(&batch, next_hop);
        proof {
            if res is Err {
                let n = choose|n: int|
                    {
                        &&& 0 <= n <= pvs.len()
                        &&& #[trigger] log_view(self.sent_log@) == log_view(old(self).sent_log@)
                            + records_of(pvs, next_hop).take(n + 1)
                        &&& ledger_view(self.packets_history@)
                            == crate::client::message_handler::packet_handler::ledger_extend(
                            led0,
                            pvs,
                            n,
                        )
                    };
                assert(records_of(pvs, next_hop).take(1) =~= records_of(pvs, next_hop));
            } else {
                assert(records_of(pvs, next_hop).take(1) =~= records_of(pvs, next_hop));
            }
        }
    }

    /// Interpret one negative acknowledgement for (fragment, session).
    /// With no ledger entry there is nothing to retransmit.  A "Dropped"
    /// report penalizes the reporting node and retransmits once; a routing
    /// error triggers one fresh discovery round and then retransmits once;
    /// the other reports are logged only.
    pub fn nack_handler(&mut self, message: &Nack, session_id: u64, node_id: NodeId)
        requires
            old(self).wf(),
            old(self).flood_id < u64::MAX,
            old(self).packet_forge.spec_next_session() < u64::MAX,
        ensures
            final(self).wf(),
            nack_outcome(*old(self), *final(self), *message, session_id, node_id),
    {
        let key = ledger_key_exec(message.fragment_index, session_id);
        let packet = match self.packets_history.get(&key) {
            Some(p) => p.dup(),
            None => {
                // nothing to retransmit: the entry was already acknowledged
                return;
            },
        };
        match message.nack_type {
            NackType::Dropped => {
                self.routing_handler.node_nack(node_id);
                let ghost mid = *self;
                self.retransmit_packet(&packet, message.fragment_index, session_id);
                proof {
                    assert(mid.routing_handler.spec_paths() == old(
                        self,
                    ).routing_handler.spec_paths());
                    assert(retransmit_outcome(*old(self), *self, packet@));
                }
            },
            NackType::DestinationIsDrone => {
                // a routing inconsistency this node cannot self-heal
            },
            NackType::ErrorInRouting(_node) => {
                self.init_flood_request();
                let ghost mid = *self;
                self.retransmit_packet(&packet, message.fragment_index, session_id);
                proof {
                    assert(flood_effect(*old(self), mid) && retransmit_outcome(
                        mid,
                        *self,
                        packet@,
                    ) && *self == (ClientState {
                        packets_history: self.packets_history,
                        sent_log: self.sent_log,
                        ..mid
                    }));
                }
            },
            NackType::UnexpectedRecipient(_node) => {
                // symptomatic of a stale header a resend would repeat
            },
        }
    }
}

} // verus!
