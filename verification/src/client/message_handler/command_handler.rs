//! Controller command handling, outside the packet flow: add or remove a
//! neighbor, crash, and the event channel back to the controlling
//! authority.

use vstd::prelude::*;
use crossbeam_channel::Sender;
use crate::channels::chan_send;
use crate::client::{ClientState, DroneCommand, DroneEvent, Status, status_forward};
use crate::packet::{NodeId, Packet};

verus! {

broadcast use vstd::std_specs::hash::group_hash_axioms;

impl ClientState {
    /// Handle one command from the controlling authority.  A crash command
    /// moves the session to `Terminated`; link commands mutate the link
    /// table; anything else is rejected as unsupported.  After termination
    /// every command is ignored.
    pub fn command_handler(&mut self, command: DroneCommand)
        requires
            old(self).wf(),
        ensures
            final(self).wf(),
            status_forward(old(self).status, final(self).status),
            *final(self) == (ClientState {
                senders: final(self).senders,
                neighbor_ids: final(self).neighbor_ids,
                status: final(self).status,
                ..*old(self)
            }),
            old(self).status == Status::Terminated ==> *final(self) == *old(self),
            old(self).status != Status::Terminated ==> match command {
                DroneCommand::Crash => final(self).status == Status::Terminated
                    && final(self).senders == old(self).senders && final(self).neighbor_ids == old(self).neighbor_ids,
                DroneCommand::AddSender(id, s) => final(self).status == old(self).status && (if id
                    != old(self).id && !old(self).senders@.contains_key(id) {
                    final(self).senders@ == old(self).senders@.insert(id, s) && final(self).neighbor_ids@ == old(self).neighbor_ids@.push(id)
                } else {
                    final(self).senders == old(self).senders && final(self).neighbor_ids == old(self).neighbor_ids
                }),
                DroneCommand::RemoveSender(id) => final(self).status == old(self).status && (if old(self).senders@.contains_key(id) {
                    final(self).senders@ == old(self).senders@.remove(id) && (exists|idx: int|
                        0 <= idx < old(self).neighbor_ids@.len() && old(self).neighbor_ids@[idx]
                            == id && final(self).neighbor_ids@ == old(self).neighbor_ids@.remove(
                            idx,
                        ))
                } else {
                    final(self).senders == old(self).senders && final(self).neighbor_ids == old(self).neighbor_ids
                }),
                DroneCommand::SetPacketDropRate => *final(self) == *old(self),
            },
    {
        if self.get_status() != Status::Terminated {
            match command {
                DroneCommand::RemoveSender(id) => {
                    let _ = self.remove_sender(id);
                },
                DroneCommand::AddSender(id, sender) => {
                    let _ = self.add_sender(id, sender);
                },
                DroneCommand::Crash => {
                    self.status = Status::Terminated;
                },
                DroneCommand::SetPacketDropRate => {
                    // unsupported for a client; rejected
                },
            }
        }
    }

    /// Send one event to the controlling authority.
    pub fn sc_send_packet(sender: &Sender<DroneEvent>, event: DroneEvent) -> (r: Result<
        (),
        String,
    >) {
        if chan_send(sender, event) {
            Ok(())
        } else {
            Err("Error occurred while sending packet event to SC".to_owned())
        }
    }

    /// Notify the controlling authority that `packet` was handed to a
    /// neighbor channel; failure to notify is swallowed (best effort).
    pub fn event_dispatcher(&self, packet: &Packet) {
        let _ = Self::sc_send_packet(&self.controller_send, DroneEvent::PacketSent(packet.dup()));
    }

    /// Remove the neighbor `id` from the link table; fails if it is absent.
    #[verifier::loop_isolation(false)]
    pub fn remove_sender(&mut self, id: NodeId) -> (r: Result<(), String>)
        requires
            old(self).wf(),
        ensures
            final(self).wf(),
            *final(self) == (ClientState {
                senders: final(self).senders,
                neighbor_ids: final(self).neighbor_ids,
                ..*old(self)
            }),
            r is Ok <==> old(self).senders@.contains_key(id),
            r is Err ==> *final(self) == *old(self),
            r is Ok ==> final(self).senders@ == old(self).senders@.remove(id) && (exists|idx: int|
                0 <= idx < old(self).neighbor_ids@.len() && old(self).neighbor_ids@[idx] == id
                    && final(self).neighbor_ids@ == old(self).neighbor_ids@.remove(idx)),
    {
        if !self.senders.contains_key(&id) {
            return Err("Sender not found".to_owned());
        }
        self.senders.remove(&id);
        proof {
            assert(self.senders@ == old(self).senders@.remove(id));
        }
        let ghost pre_ids = self.neighbor_ids@;
        let n = self.neighbor_ids.len();
        let mut i: usize = 0;
        while i < n
            invariant
                i <= n,
                n == pre_ids.len(),
                self.neighbor_ids@ == pre_ids,
                self.senders@ == old(self).senders@.remove(id),
                *self == (ClientState {
                    senders: self.senders,
                    neighbor_ids: self.neighbor_ids,
                    ..*old(self)
                }),
                forall|j: int| 0 <= j < i ==> pre_ids[j] != id,
                pre_ids.contains(id),
            decreases n - i,
        {
            if self.neighbor_ids[i] == id {
                self.neighbor_ids.remove(i);
                proof {
                    let post = self;
                    assert(pre_ids == old(self).neighbor_ids@);
                    assert(post.neighbor_ids@ == pre_ids.remove(i as int));
                    assert forall|j: int| 0 <= j < post.neighbor_ids@.len() implies
                        post.senders@.contains_key(#[trigger] post.neighbor_ids@[j]) by {
                        let jj: int = if j < i {
                            j
                        } else {
                            j + 1
                        };
                        assert(post.neighbor_ids@[j] == old(self).neighbor_ids@[jj]);
                        assert(old(self).senders@.contains_key(old(self).neighbor_ids@[jj]));
                        if jj != i {
                            assert(old(self).neighbor_ids@[jj] != old(self).neighbor_ids@[i as int]);
                        }
                        assert(post.neighbor_ids@[j] != id);
                    }
                    assert forall|k: NodeId| #[trigger] post.senders@.contains_key(k) implies
                        post.neighbor_ids@.contains(k) by {
                        assert(old(self).senders@.contains_key(k));
                        assert(old(self).neighbor_ids@.contains(k));
                        let w = choose|w: int| 0 <= w < pre_ids.len() && pre_ids[w] == k;
                        assert(k != id);
                        if w < i {
                            assert(post.neighbor_ids@[w] == k);
                        } else {
                            assert(w != i);
                            assert(post.neighbor_ids@[w - 1] == k);
                        }
                    }
                }
                return Ok(());
            }
            proof {
                let w = choose|w: int| 0 <= w < pre_ids.len() && pre_ids[w] == id;
            }
            i = i + 1;
        }
        proof {
            let w = choose|w: int| 0 <= w < pre_ids.len() && pre_ids[w] == id;
            assert(false);
        }
        Err("Sender not found".to_owned())
    }

    /// Add the neighbor `id` to the link table; fails if it is already
    /// present, or names this client itself (the table never holds a
    /// channel for this node's own id).
    pub fn add_sender(&mut self, id: NodeId, sender: Sender<Packet>) -> (r: Result<(), String>)
        requires
            old(self).wf(),
        ensures
            final(self).wf(),
            *final(self) == (ClientState {
                senders: final(self).senders,
                neighbor_ids: final(self).neighbor_ids,
                ..*old(self)
            }),
            r is Ok <==> (id != old(self).id && !old(self).senders@.contains_key(id)),
            r is Err ==> *final(self) == *old(self),
            r is Ok ==> final(self).senders@ == old(self).senders@.insert(id, sender) && final(self).neighbor_ids@ == old(self).neighbor_ids@.push(id),
    {
        if id == self.id {
            return Err("Cannot add a channel for this node's own id".to_owned());
        }
        if self.senders.contains_key(&id) {
            return Err("Sender already exists".to_owned());
        }
        let ghost pre_ids = self.neighbor_ids@;
        self.senders.insert(id, sender);
        self.neighbor_ids.push(id);
        proof {
            let post = self;
            assert forall|k: NodeId| #[trigger] post.senders@.contains_key(k) implies
                post.neighbor_ids@.contains(k) by {
                if k == id {
                    assert(post.neighbor_ids@[pre_ids.len() as int] == k);
                } else {
                    let w = choose|w: int| 0 <= w < pre_ids.len() && pre_ids[w] == k;
                    assert(post.neighbor_ids@[w] == k);
                }
            }
        }
        Ok(())
    }
}

} // verus!
