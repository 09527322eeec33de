//! ACK interpretation and ACK emission of the reliability engine.

use vstd::prelude::*;
use crate::client::{ledger_key, ledger_key_exec, log_view, ClientState, DroneEvent};
use crate::client::message_handler::packet_handler::{ledger_view, records_of};
use crate::packet::{NodeId, Packet, PacketTypeView, PacketView, SrhView, Ack};

verus! {

broadcast use vstd::std_specs::hash::group_hash_axioms;

/// The acknowledgement packet answering `p` for one fragment: it travels
/// the reverse of `p`'s route, toward the immediate predecessor hop.
pub open spec fn ack_packet(p: PacketView, fragment_index: u64) -> PacketView {
    PacketView {
        routing_header: SrhView { hops: p.routing_header.hops.reverse(), hop_index: 1 },
        session_id: p.session_id,
        pack_type: PacketTypeView::Ack(Ack { fragment_index }),
    }
}

/// The hop an acknowledgement of `p` is sent to: the second hop of the
/// reversed route, which is `p`'s immediate predecessor.
pub open spec fn ack_next_hop(p: PacketView) -> Option<NodeId> {
    if p.routing_header.hops.len() >= 2 {
        Some(p.routing_header.hops.reverse()[1])
    } else {
        None
    }
}

/// What one acknowledgement emission does to a session: nothing when the
/// packet's route has no predecessor hop or the predecessor has no
/// channel; otherwise exactly one attempt toward the predecessor is
/// logged, and the ACK packet enters the delivery ledger under its
/// control tag when the channel accepted it.
pub open spec fn ack_send_outcome(
    pre: ClientState,
    post: ClientState,
    p: PacketView,
    fragment_index: u64,
) -> bool {
    &&& post == (ClientState {
        packets_history: post.packets_history,
        sent_log: post.sent_log,
        ..pre
    })
    &&& match ack_next_hop(p) {
        None => post == pre,
        Some(next) => if pre.senders@.contains_key(next) {
            &&& log_view(post.sent_log@) == log_view(pre.sent_log@) + records_of(
                seq![ack_packet(p, fragment_index)],
                next,
            )
            &&& (ledger_view(post.packets_history@) == ledger_view(pre.packets_history@)
                || ledger_view(post.packets_history@) == ledger_view(
                pre.packets_history@,
            ).insert(ledger_key(0, p.session_id), ack_packet(p, fragment_index)))
        } else {
            post == pre
        },
    }
}

impl ClientState {
    /// An acknowledgement for (fragment, session) arrived: the matching
    /// delivery-ledger entry is removed, and exactly that entry.  A
    /// duplicate acknowledgement finds no entry and changes nothing (a
    /// logged, non-fatal anomaly).
    pub fn ack_handler(&mut self, session_id: u64, fragment_index: u64)
        ensures
            final(self).packets_history@ == old(self).packets_history@.remove(
                ledger_key(fragment_index, session_id),
            ),
            *final(self) == (ClientState {
                packets_history: final(self).packets_history,
                ..*old(self)
            }),
            old(self).wf() ==> final(self).wf(),
    {
        let key = ledger_key_exec(fragment_index, session_id);
        if self.packets_history.contains_key(&key) {
            self.packets_history.remove(&key);
        } else {
            // duplicate acknowledgement: nothing to remove
            proof {
                assert(self.packets_history@ =~= old(self).packets_history@.remove(key));
            }
        }
    }

    /// Build and send an `Ack` toward the predecessor hop of `packet`'s
    /// route.  A route too short to have a predecessor is treated as a
    /// corrupt header: nothing is sent.  When the predecessor's channel is
    /// unknown nothing is sent either; when handing the packet to the
    /// channel fails, the acknowledgement falls back to the controller
    /// shortcut, and failure of both is terminal for this ACK.
    pub fn send_ack(&mut self, packet: &Packet, fragment_index: u64)
        requires
            old(self).wf(),
        ensures
            final(self).wf(),
            ack_send_outcome(*old(self), *final(self), packet@, fragment_index),
    {
        let mut source_routing_header = packet.routing_header.get_reversed();
        source_routing_header.increase_hop_index();
        if source_routing_header.hop_index != 1 {
            // corrupt header: the reversed cursor must land on position 1
            return;
        }
        if source_routing_header.hops.len() < 2 {
            // no predecessor hop exists; drop the acknowledgement
            return;
        }
        let next_hop = source_routing_header.hops[1];
        let ack = Packet::new_ack(source_routing_header, packet.session_id, fragment_index);
        let mut batch: Vec<Packet> = Vec::new();
        batch.push(ack);
        let ghost pvs = crate::client::message_handler::packet_handler::packet_views(batch@);
        let ghost led0 = ledger_view(self.packets_history@);
        proof {
            assert(pvs =~= seq![ack_packet(packet@, fragment_index)]);
            assert(records_of(pvs, next_hop) =~= records_of(
                seq![ack_packet(packet@, fragment_index)],
                next_hop,
            ));
            reveal_with_fuel(crate::client::message_handler::packet_handler::ledger_extend, 3);
            assert(crate::packet::spec_fragment_index(pvs[0]) == 0);
            assert(crate::client::message_handler::packet_handler::ledger_extend(led0, pvs, 0)
                == led0);
            assert(crate::client::message_handler::packet_handler::ledger_extend(led0, pvs, 1)
                == led0.insert(
                ledger_key(0, packet@.session_id),
                ack_packet(packet@, fragment_index),
            ));
        }
        if let Err(_msg) = self.send_packets_vec(&batch, next_hop) {
            proof {
                let n = choose|n: int|
                    {
                        &&& 0 <= n <= pvs.len()
                        &&& #[trigger] log_view(self.sent_log@) == log_view(old(self).sent_log@)
                            + records_of(pvs, next_hop).take(n + 1)
                        &&& ledger_view(self.packets_history@)
                            == crate::client::message_handler::packet_handler::ledger_extend(
                            ledger_view(old(self).packets_history@),
                            pvs,
                            n,
                        )
                    };
                assert(records_of(pvs, next_hop).take(1) =~= records_of(pvs, next_hop));
            }
            let _ = Self::sc_send_packet(
                &self.controller_send,
                DroneEvent::ControllerShortcut(packet.dup()),
            );
        } else {
            proof {
                assert(records_of(pvs, next_hop).take(1) =~= records_of(pvs, next_hop));
            }
        }
    }
}

} // verus!
