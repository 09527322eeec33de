//! The processing and refresh steps that the session's background loops
//! drive: each loop iteration takes exclusive access, performs one step,
//! and releases it; the loops themselves live outside the engine.

use vstd::prelude::*;

pub mod command_handler;
pub mod packet_handler;

use crate::channels::chan_try_recv;
use crate::client::{ClientState, Status, status_forward};
use crate::client::message_handler::packet_handler::flood_handler::flood_effect;
use crate::client::message_handler::packet_handler::node_messages::{
    send_message_outcome, subscribe_message,
};
use crate::message::MessageTypeView;

verus! {

broadcast use vstd::std_specs::hash::group_hash_axioms;

impl ClientState {
    /// One iteration of the processing loop: promote `Starting` to `Idle`
    /// once a server is known (announcing this client to it), then drain at
    /// most one pending controller command and one pending packet.  After a
    /// crash command nothing further is processed.  Returns whether the
    /// loop should continue; after `Terminated` it never should.
    pub fn process_once(&mut self) -> (r: bool)
        requires
            old(self).wf(),
        ensures
            final(self).wf(),
            status_forward(old(self).status, final(self).status),
            r == (final(self).status != Status::Terminated),
            old(self).status == Status::Terminated ==> *final(self) == *old(self) && !r,
            final(self).flood_id >= old(self).flood_id,
            // a Starting session that knows a server leaves Starting in
            // this very iteration,
            old(self).status == Status::Starting && old(self).servers_id@.len() > 0 ==> final(self).status != Status::Starting && status_forward(Status::Idle, final(self).status),
            // and announces this client to the first known server on the
            // way (when a session id is still available),
            old(self).status == Status::Starting && old(self).servers_id@.len() > 0 && old(self).packet_forge.spec_next_session() < u64::MAX ==> exists|mid: ClientState, ok: bool|
                #[trigger] send_message_outcome(
                    *old(self),
                    mid,
                    subscribe_message(*old(self)),
                    old(self).id,
                    old(self).servers_id@[0],
                    ok,
                ),
            *final(self) == (ClientState {
                flood_id: final(self).flood_id,
                servers_id: final(self).servers_id,
                senders: final(self).senders,
                neighbor_ids: final(self).neighbor_ids,
                packet_forge: final(self).packet_forge,
                status: final(self).status,
                db: final(self).db,
                routing_handler: final(self).routing_handler,
                packets_map: final(self).packets_map,
                song_map: final(self).song_map,
                packets_history: final(self).packets_history,
                client_song_map: final(self).client_song_map,
                sent_log: final(self).sent_log,
                notified: final(self).notified,
                ..*old(self)
            }),
    {
        if self.servers_id.len() > 0 && self.get_status() == Status::Starting {
            if self.packet_forge.has_session() {
                self.send_subscribe();
                proof {
                    let sub = *self;
                    assert(exists|ok: bool| #[trigger] send_message_outcome(
                        *old(self),
                        sub,
                        subscribe_message(*old(self)),
                        old(self).id,
                        old(self).servers_id@[0],
                        ok,
                    ));
                }
            }
            self.status = Status::Idle;
        }
        if self.get_status() == Status::Terminated {
            return false;
        }
        match chan_try_recv(&self.controller_recv) {
            Some(command) => self.command_handler(command),
            None => {},
        }
        if self.get_status() == Status::Terminated {
            // a crash command was just processed: no further commands or
            // packets are handled
            return false;
        }
        match chan_try_recv(&self.packet_recv) {
            Some(packet) => {
                if self.flood_id < u64::MAX && self.packet_forge.has_session() {
                    self.packet_handler(packet);
                } else {
                    // round-id or session-id space exhausted: the packet is
                    // dropped
                }
            },
            None => {},
        }
        self.get_status() != Status::Terminated
    }

    /// The catalogue half of one refresh-loop round: while `Running`, ask
    /// the first known server for a fresh file list; in any other phase,
    /// or with the session-id space exhausted, do nothing.
    pub fn refresh_filelist(&mut self)
        requires
            old(self).wf(),
        ensures
            final(self).wf(),
            final(self).status == old(self).status,
            final(self).flood_id == old(self).flood_id,
            (old(self).status == Status::Running && old(self).servers_id@.len() > 0 && old(self).packet_forge.spec_next_session() < u64::MAX) ==> exists|ok: bool|
                #[trigger] send_message_outcome(
                    *old(self),
                    *final(self),
                    (MessageTypeView::RequestFileList { client_id: old(self).id }),
                    old(self).id,
                    old(self).servers_id@[0],
                    ok,
                ),
            !(old(self).status == Status::Running && old(self).servers_id@.len() > 0 && old(self).packet_forge.spec_next_session() < u64::MAX) ==> *final(self) == *old(self),
    {
        if self.is_running() && self.servers_id.len() > 0 && self.packet_forge.has_session() {
            self.send_request_filelist();
        }
    }

    /// The topology half of one refresh-loop round: while `Running`,
    /// launch a fresh discovery round; in any other phase, or with a
    /// counter exhausted, do nothing.
    pub fn refresh_discovery(&mut self)
        requires
            old(self).wf(),
        ensures
            final(self).wf(),
            final(self).status == old(self).status,
            (old(self).status == Status::Running && old(self).flood_id < u64::MAX && old(self).packet_forge.spec_next_session() < u64::MAX) ==> flood_effect(
                *old(self),
                *final(self),
            ),
            !(old(self).status == Status::Running && old(self).flood_id < u64::MAX && old(self).packet_forge.spec_next_session() < u64::MAX) ==> *final(self) == *old(self),
    {
        if self.is_running() && self.flood_id < u64::MAX && self.packet_forge.has_session() {
            self.init_flood_request();
        }
    }

    /// The discovery round launched when a session starts, before the
    /// processing loop runs; with a counter exhausted it is skipped.
    pub fn launch_discovery(&mut self)
        requires
            old(self).wf(),
        ensures
            final(self).wf(),
            final(self).status == old(self).status,
            (old(self).flood_id < u64::MAX && old(self).packet_forge.spec_next_session()
                < u64::MAX) ==> flood_effect(*old(self), *final(self)),
            !(old(self).flood_id < u64::MAX && old(self).packet_forge.spec_next_session()
                < u64::MAX) ==> *final(self) == *old(self),
    {
        if self.flood_id < u64::MAX && self.packet_forge.has_session() {
            self.init_flood_request();
        }
    }
}

} // verus!
