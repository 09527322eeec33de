//! The message layer: building and sending protocol-level requests, and
//! reacting to received, reassembled messages.

use vstd::prelude::*;
use crate::channels::chan_send;
use crate::client::{chunk_key, chunk_key_exec, log_view, ClientState};
use crate::client::message_handler::packet_handler::{
    ledger_extend, ledger_view, packet_views, records_of,
};
use crate::codec::{spec_disassemble, spec_encode_message};
use crate::database::{spec_compact_hash, spec_insert_song};
use crate::message::{
    ChunkRequest, ChunkResponse, ClientType, FileHash, FileMetadata, FileMetadataView, Index,
    MessageType, MessageTypeView, RequestFileList, RequestPeerList, SongMetaDataView,
    SubscribeClient,
};
use crate::packet::{NodeId, SrhView};

verus! {

broadcast use vstd::std_specs::hash::group_hash_axioms;

/// What one call of [`ClientState::send_message`] does, given whether it
/// reported success: with no known path nothing changes and the call
/// fails; otherwise a fresh session id is consumed, the message's
/// fragments are dispatched toward the path's first forwarding hop, and on
/// success every fragment was handed to the channel.
pub open spec fn send_message_outcome(
    pre: ClientState,
    post: ClientState,
    m: MessageTypeView,
    src: NodeId,
    dst: NodeId,
    ok: bool,
) -> bool {
    match pre.routing_handler.spec_best_path(src, dst) {
        None => !ok && post == pre,
        Some(path) => {
            let frames = spec_disassemble(
                spec_encode_message(m),
                SrhView { hops: path, hop_index: 1 },
                pre.packet_forge.spec_next_session(),
            );
            &&& post.packet_forge.spec_next_session() == pre.packet_forge.spec_next_session() + 1
            &&& post == (ClientState {
                packet_forge: post.packet_forge,
                packets_history: post.packets_history,
                sent_log: post.sent_log,
                ..pre
            })
            &&& if pre.senders@.contains_key(path[1]) {
                exists|n: int|
                    {
                        &&& 0 <= n <= frames.len()
                        &&& (ok ==> n == frames.len())
                        &&& #[trigger] log_view(post.sent_log@) == log_view(pre.sent_log@)
                            + records_of(frames, path[1]).take(if ok {
                            n
                        } else {
                            n + 1
                        })
                        &&& ledger_view(post.packets_history@) == ledger_extend(
                            ledger_view(pre.packets_history@),
                            frames,
                            n,
                        )
                    }
            } else {
                !ok && post.sent_log == pre.sent_log && post.packets_history
                    == pre.packets_history
            }
        },
    }
}

/// What one waiter wake attempt does: with a waiter registered under
/// (file, segment) the ghost notification record gains one entry and the
/// one-shot channel is fired with `value`; with none, nothing changes.
pub open spec fn waiter_wake(
    pre: ClientState,
    post: ClientState,
    file_hash: FileHash,
    segment: u32,
    value: bool,
) -> bool {
    if pre.inner_senders@.contains_key(chunk_key(file_hash, segment)) {
        &&& post.notified@ == pre.notified@.push((chunk_key(file_hash, segment), value))
        &&& post == (ClientState { notified: post.notified, ..pre })
    } else {
        post == pre
    }
}

/// What one internally issued chunk request for (file, segment) toward
/// `dst` does: the request goes through one message send, and on failure a
/// registered waiter is woken with a negative result.
pub open spec fn internal_request_outcome(
    pre: ClientState,
    post: ClientState,
    file_hash: FileHash,
    segment: u32,
    dst: crate::packet::NodeId,
) -> bool {
    exists|mid: ClientState, ok: bool|
        {
            &&& #[trigger] send_message_outcome(
                pre,
                mid,
                (MessageTypeView::ChunkRequest {
                    client_id: pre.id,
                    file_hash,
                    chunk_index: crate::message::IndexView::Indexes(seq![segment]),
                }),
                pre.id,
                dst,
                ok,
            )
            &&& (ok ==> post == mid)
            &&& (!ok ==> waiter_wake(mid, post, file_hash, segment, false))
        }
}

/// The subscribe message a session announces itself with: its id and its
/// current local catalogue.
pub open spec fn subscribe_message(st: ClientState) -> MessageTypeView {
    MessageTypeView::SubscribeClient {
        client_id: st.id,
        client_type: ClientType::Song,
        file_list: st.db@.songs.map_values(|s: SongMetaDataView| FileMetadataView::Song(s)),
    }
}

/// The catalogue after inserting every song entry of an advertised list
/// (video entries are dropped); a song with id zero is stored under its
/// compact hash.
pub open spec fn db_songs_after(songs: Seq<SongMetaDataView>, list: Seq<FileMetadataView>) -> Seq<
    SongMetaDataView,
>
    decreases list.len(),
{
    if list.len() == 0 {
        songs
    } else {
        let rest = list.drop_first();
        match list[0] {
            FileMetadataView::Song(s) => db_songs_after(
                spec_insert_song(
                    songs,
                    SongMetaDataView {
                        id: if s.id == 0 {
                            spec_compact_hash(s)
                        } else {
                            s.id
                        },
                        ..s
                    },
                ),
                rest,
            ),
            FileMetadataView::Video(_) => db_songs_after(songs, rest),
        }
    }
}

impl ClientState {
    /// Ask the routing oracle for the best path from `src` to `dst`,
    /// disassemble the message into fragments along it, and dispatch them
    /// as a batch toward the path's first forwarding hop.  With no path the
    /// caller gets an error and nothing changes.
    pub fn send_message(&mut self, message: MessageType, src: NodeId, dst: NodeId) -> (r: Result<
        (),
        (),
    >)
        requires
            old(self).wf(),
            old(self).packet_forge.spec_next_session() < u64::MAX,
        ensures
            final(self).wf(),
            send_message_outcome(*old(self), *final(self), message@, src, dst, r is Ok),
    {
        let srh = match self.routing_handler.best_path(src, dst) {
            Some(srh) => srh,
            None => {
                return Err(());
            },
        };
        let next_hop = srh.hops[1];
        let frames = self.packet_forge.disassemble(&message, &srh);
        let ghost path = old(self).routing_handler.spec_best_path(src, dst).unwrap();
        let ghost fvs = spec_disassemble(
            spec_encode_message(message@),
            SrhView { hops: path, hop_index: 1 },
            old(self).packet_forge.spec_next_session(),
        );
        proof {
            assert(packet_views(frames@) == fvs);
        }
        if !self.senders.contains_key(&next_hop) {
            return Err(());
        }
        let res = self.send_packets_vec(&frames, next_hop);
        if res.is_err() {
            return Err(());
        }
        Ok(())
    }

    /// Announce this client and its current catalogue to the first known
    /// server.
    pub fn send_subscribe(&mut self)
        requires
            old(self).wf(),
            old(self).servers_id@.len() > 0,
            old(self).packet_forge.spec_next_session() < u64::MAX,
        ensures
            final(self).wf(),
            exists|ok: bool| #[trigger] send_message_outcome(
                *old(self),
                *final(self),
                subscribe_message(*old(self)),
                old(self).id,
                old(self).servers_id@[0],
                ok,
            ),
    {
        let id = self.get_id();
        let server_id = self.servers_id[0];
        let songs = match self.db.get_all_songs_meta() {
            Ok(list) => list,
            Err(_) => {
                proof {
                    assert(false);
                }
                return;
            },
        };
        let mut file_list: Vec<FileMetadata> = Vec::new();
        let n = songs.len();
        let mut i: usize = 0;
        while i < n
            invariant
                i <= n,
                n == songs@.len(),
                songs@.map_values(|s: crate::message::SongMetaData| s@) == self.db@.songs,
                file_list@.len() == i,
                forall|j: int| 0 <= j < i ==> (#[trigger] file_list@[j])@
                    == FileMetadataView::Song(songs@[j]@),
            decreases n - i,
        {
            file_list.push(FileMetadata::Song(songs[i].dup()));
            i = i + 1;
        }
        let message = MessageType::SubscribeClient(
            SubscribeClient::new(id, ClientType::Song, file_list),
        );
        proof {
            let lhs = crate::message::file_list_view(file_list@);
            let rhs = old(self).db@.songs.map_values(
                |s: SongMetaDataView| FileMetadataView::Song(s),
            );
            assert forall|j: int| 0 <= j < lhs.len() implies lhs[j] == rhs[j] by {
                assert(file_list@[j]@ == FileMetadataView::Song(songs@[j]@));
                assert(songs@.map_values(|s: crate::message::SongMetaData| s@)[j] == songs@[j]@);
            }
            assert(lhs =~= rhs);
            assert(message@ =~~= subscribe_message(*old(self)));
        }
        let res = self.send_message(message, id, server_id);
        proof {
            assert(send_message_outcome(
                *old(self),
                *self,
                subscribe_message(*old(self)),
                old(self).id,
                old(self).servers_id@[0],
                res is Ok,
            ));
        }
    }

    /// Ask the first known server for the current network catalogue.
    pub fn send_request_filelist(&mut self)
        requires
            old(self).wf(),
            old(self).servers_id@.len() > 0,
            old(self).packet_forge.spec_next_session() < u64::MAX,
        ensures
            final(self).wf(),
            exists|ok: bool| #[trigger] send_message_outcome(
                *old(self),
                *final(self),
                (MessageTypeView::RequestFileList { client_id: old(self).id }),
                old(self).id,
                old(self).servers_id@[0],
                ok,
            ),
    {
        let id = self.get_id();
        let server_id = self.servers_id[0];
        let message = MessageType::RequestFileList(RequestFileList::new(id));
        let res = self.send_message(message, id, server_id);
        proof {
            assert(send_message_outcome(
                *old(self),
                *self,
                (MessageTypeView::RequestFileList { client_id: old(self).id }),
                old(self).id,
                old(self).servers_id@[0],
                res is Ok,
            ));
        }
    }

    /// Serve one requested segment to a peer: read it from the local store
    /// and send a chunk response back; a segment this store does not hold
    /// is logged and dropped.
    pub fn send_chunk_response(&mut self, file_id: FileHash, segment: u32, dst: NodeId)
        requires
            old(self).wf(),
            old(self).packet_forge.spec_next_session() < u64::MAX,
        ensures
            final(self).wf(),
            !old(self).db@.segments.contains_key(crate::database::segment_key(file_id, segment))
                ==> *final(self) == *old(self),
            old(self).db@.segments.contains_key(crate::database::segment_key(file_id, segment))
                ==> exists|ok: bool| #[trigger] send_message_outcome(
                *old(self),
                *final(self),
                (MessageTypeView::ChunkResponse {
                    file_hash: file_id,
                    chunk_index: segment,
                    total_chunks: 0,
                    chunk_data: old(self).db@.segments[crate::database::segment_key(
                        file_id,
                        segment,
                    )],
                }),
                old(self).id,
                dst,
                ok,
            ),
    {
        let id = self.get_id();
        let payload = match self.db.get_song_segment(file_id, segment) {
            Ok(chunk) => chunk,
            Err(_) => {
                return;
            },
        };
        let message = MessageType::ChunkResponse(ChunkResponse::new(file_id, segment, 0, payload));
        let ghost mv = (MessageTypeView::ChunkResponse {
            file_hash: file_id,
            chunk_index: segment,
            total_chunks: 0,
            chunk_data: old(self).db@.segments[crate::database::segment_key(file_id, segment)],
        });
        proof {
            assert(message@ =~~= mv);
        }
        let res = self.send_message(message, id, dst);
        proof {
            assert(send_message_outcome(*old(self), *self, mv, old(self).id, dst, res is Ok));
        }
    }

    /// Ask the peer recorded for `file_id` for one segment; used right
    /// after a peer-list reply.  On a send failure a registered waiter for
    /// (file, segment) is woken with a negative result.
    pub fn send_internal_segment_request(&mut self, file_id: FileHash, segment: u32)
        requires
            old(self).wf(),
            old(self).packet_forge.spec_next_session() < u64::MAX,
        ensures
            final(self).wf(),
            !old(self).client_song_map@.contains_key(file_id) ==> *final(self) == *old(self),
            old(self).client_song_map@.contains_key(file_id) ==> internal_request_outcome(
                *old(self),
                *final(self),
                file_id,
                segment,
                old(self).client_song_map@[file_id],
            ),
    {
        let id = self.get_id();
        let dst = match self.client_song_map.get(&file_id) {
            Some(d) => *d,
            None => {
                return;
            },
        };
        let mut indexes: Vec<u32> = Vec::new();
        indexes.push(segment);
        let message = MessageType::ChunkRequest(
            ChunkRequest::new(id, file_id, Index::Indexes(indexes)),
        );
        let ghost mv = (MessageTypeView::ChunkRequest {
            client_id: old(self).id,
            file_hash: file_id,
            chunk_index: crate::message::IndexView::Indexes(seq![segment]),
        });
        proof {
            assert(message@ =~~= mv);
        }
        let res = self.send_message(message, id, dst);
        let ghost mid = *self;
        proof {
            assert(send_message_outcome(
                *old(self),
                mid,
                mv,
                old(self).id,
                old(self).client_song_map@[file_id],
                res is Ok,
            ));
        }
        if res.is_err() {
            self.notify_waiter(file_id, segment, false);
        }
        proof {
            assert(internal_request_outcome(
                *old(self),
                *self,
                file_id,
                segment,
                old(self).client_song_map@[file_id],
            ));
        }
    }

    /// Wake a registered waiter for (file, segment) with `value`; a missing
    /// waiter is a logged anomaly.  Besides the waiter's channel only the
    /// ghost notification record changes.
    pub fn notify_waiter(&mut self, file_id: FileHash, segment: u32, value: bool)
        ensures
            waiter_wake(*old(self), *final(self), file_id, segment, value),
    {
        let key = chunk_key_exec(file_id, segment);
        match self.inner_senders.get(&key) {
            Some(sender) => {
                let _ = chan_send(sender, value);
                proof {
                    self.notified@ = self.notified@.push((key, value));
                }
            },
            None => {
                // nobody waits for this key: a logged anomaly
            },
        }
    }

    /// The externally triggered first step of a content fetch: segment zero
    /// asks the first known server which peer serves the content; a later
    /// segment asks the already-resolved peer directly.  On a send failure
    /// at either step a registered waiter is woken with a negative result,
    /// so a blocked caller does not hang.
    pub fn send_segment_request(&mut self, file_id: FileHash, segment: u32)
        requires
            old(self).wf(),
            old(self).packet_forge.spec_next_session() < u64::MAX,
        ensures
            final(self).wf(),
            segment == 0 && old(self).servers_id@.len() == 0 ==> waiter_wake(
                *old(self),
                *final(self),
                file_id,
                segment,
                false,
            ),
            segment == 0 && old(self).servers_id@.len() > 0 ==> exists|mid: ClientState, ok: bool|
                {
                    &&& #[trigger] send_message_outcome(
                        *old(self),
                        mid,
                        (MessageTypeView::RequestPeerList {
                            client_id: old(self).id,
                            file_hash: file_id,
                        }),
                        old(self).id,
                        old(self).servers_id@[0],
                        ok,
                    )
                    &&& (ok ==> *final(self) == mid)
                    &&& (!ok ==> waiter_wake(mid, *final(self), file_id, segment, false))
                },
            segment != 0 && !old(self).client_song_map@.contains_key(file_id) ==> *final(self)
                == *old(self),
            segment != 0 && old(self).client_song_map@.contains_key(file_id)
                ==> internal_request_outcome(
                *old(self),
                *final(self),
                file_id,
                segment,
                old(self).client_song_map@[file_id],
            ),
    {
        let id = self.get_id();
        if segment == 0 {
            if self.servers_id.len() == 0 {
                // no server known yet: wake the waiter so the caller does
                // not hang
                self.notify_waiter(file_id, segment, false);
                return;
            }
            let server_id = self.servers_id[0];
            let message = MessageType::RequestPeerList(
                RequestPeerList { client_id: id, file_hash: file_id },
            );
            let ghost mv = (MessageTypeView::RequestPeerList {
                client_id: old(self).id,
                file_hash: file_id,
            });
            let res = self.send_message(message, id, server_id);
            let ghost mid = *self;
            proof {
                assert(send_message_outcome(
                    *old(self),
                    mid,
                    mv,
                    old(self).id,
                    old(self).servers_id@[0],
                    res is Ok,
                ));
            }
            if res.is_err() {
                self.notify_waiter(file_id, segment, false);
            }
        } else {
            // a later segment goes to the peer already recorded for the
            // content id
            self.send_internal_segment_request(file_id, segment);
        }
    }
}

} // verus!