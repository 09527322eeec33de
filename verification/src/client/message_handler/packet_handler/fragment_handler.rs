//! The reassembly buffer and the dispatch of reassembled application
//! messages.

use vstd::prelude::*;
use crate::client::{
    buffer_wf, chunk_key, reassembly_key, reassembly_key_exec, ClientState, Status, status_forward,
};
use crate::client::message_handler::packet_handler::ack_handler::ack_send_outcome;
use crate::client::message_handler::packet_handler::node_messages::{
    db_songs_after, internal_request_outcome, send_message_outcome,
};
use crate::codec::spec_assemble;
use crate::database::segment_key;
use crate::message::{FileHash, FileMetadata, FileMetadataView, Index, MessageType, MessageTypeView};
use crate::packet::{Fragment, FragmentView, NodeId, Packet};

verus! {

broadcast use vstd::std_specs::hash::group_hash_axioms;

/// The views of the reassembly buffers.
pub open spec fn buffers_view(m: Map<u128, Vec<Fragment>>) -> Map<u128, Seq<FragmentView>> {
    m.map_values(|v: Vec<Fragment>| v@.map_values(|f: Fragment| f@))
}

/// The views of the segment cache.
pub open spec fn songs_view(m: Map<u64, Vec<u8>>) -> Map<u64, Seq<u8>> {
    m.map_values(|v: Vec<u8>| v@)
}


/// The resting buffer under `key`, or an empty one.
pub open spec fn buffer_of(pre: ClientState, key: u128) -> Seq<FragmentView> {
    if pre.packets_map@.contains_key(key) {
        buffers_view(pre.packets_map@)[key]
    } else {
        Seq::<FragmentView>::empty()
    }
}

/// Whether some fragment of `buf` carries index `ix`.
pub open spec fn has_frag_index(buf: Seq<FragmentView>, ix: u64) -> bool {
    exists|j: int| 0 <= j < buf.len() && (#[trigger] buf[j]).fragment_index == ix
}

/// The chunk response serving one stored segment back to a requester.
pub open spec fn chunk_response_message(st: ClientState, file_hash: FileHash, ix: u32)
    -> MessageTypeView {
    MessageTypeView::ChunkResponse {
        file_hash,
        chunk_index: ix,
        total_chunks: 0,
        chunk_data: st.db@.segments[segment_key(file_hash, ix)],
    }
}

/// What serving one requested segment index does: a segment the store does
/// not hold, or an exhausted session-id space, serves nothing; otherwise
/// the chunk response goes through one message send.
pub open spec fn chunk_step_outcome(
    pre: ClientState,
    post: ClientState,
    file_hash: FileHash,
    requester: NodeId,
    ix: u32,
) -> bool {
    if pre.packet_forge.spec_next_session() < u64::MAX {
        if pre.db@.segments.contains_key(segment_key(file_hash, ix)) {
            exists|ok: bool| #[trigger] send_message_outcome(
                pre,
                post,
                chunk_response_message(pre, file_hash, ix),
                pre.id,
                requester,
                ok,
            )
        } else {
            post == pre
        }
    } else {
        post == pre
    }
}

/// What serving a whole requested index list does: one serving step per
/// index, in request order.
pub open spec fn chunk_serve_outcome(
    pre: ClientState,
    post: ClientState,
    file_hash: FileHash,
    requester: NodeId,
    indexes: Seq<u32>,
) -> bool
    decreases indexes.len(),
{
    if indexes.len() == 0 {
        post == pre
    } else {
        exists|mid: ClientState|
            {
                &&& #[trigger] chunk_step_outcome(pre, mid, file_hash, requester, indexes[0])
                &&& chunk_serve_outcome(mid, post, file_hash, requester, indexes.drop_first())
            }
    }
}

/// Serving one more index extends a serving chain on the right.
proof fn lemma_chunk_serve_snoc(
    pre: ClientState,
    mid: ClientState,
    post: ClientState,
    file_hash: FileHash,
    requester: NodeId,
    indexes: Seq<u32>,
    ix: u32,
)
    requires
        chunk_serve_outcome(pre, mid, file_hash, requester, indexes),
        chunk_step_outcome(mid, post, file_hash, requester, ix),
    ensures
        chunk_serve_outcome(pre, post, file_hash, requester, indexes.push(ix)),
    decreases indexes.len(),
{
    if indexes.len() == 0 {
        assert(indexes.push(ix)[0] == ix);
        assert(indexes.push(ix).drop_first() =~= Seq::<u32>::empty());
        assert(chunk_step_outcome(pre, post, file_hash, requester, indexes.push(ix)[0]));
        assert(chunk_serve_outcome(
            post,
            post,
            file_hash,
            requester,
            indexes.push(ix).drop_first(),
        ));
    } else {
        let m1 = choose|m1: ClientState|
            {
                &&& #[trigger] chunk_step_outcome(pre, m1, file_hash, requester, indexes[0])
                &&& chunk_serve_outcome(m1, mid, file_hash, requester, indexes.drop_first())
            };
        lemma_chunk_serve_snoc(m1, mid, post, file_hash, requester, indexes.drop_first(), ix);
        assert(indexes.push(ix)[0] == indexes[0]);
        assert(indexes.push(ix).drop_first() =~= indexes.drop_first().push(ix));
        assert(chunk_step_outcome(pre, m1, file_hash, requester, indexes.push(ix)[0]));
        assert(chunk_serve_outcome(
            m1,
            post,
            file_hash,
            requester,
            indexes.push(ix).drop_first(),
        ));
    }
}

/// What reacting to one received, reassembled application message does to
/// a session: the status only moves forward (to `Running` at most), the
/// link table, waiters, counters and buffers are untouched, and the
/// variant decides the rest.
pub open spec fn node_message_outcome(
    pre: ClientState,
    post: ClientState,
    m: MessageTypeView,
) -> bool {
    &&& status_forward(pre.status, post.status)
    &&& (post.status == pre.status || post.status == Status::Running)
    &&& post == (ClientState {
        status: post.status,
        db: post.db,
        song_map: post.song_map,
        client_song_map: post.client_song_map,
        packet_forge: post.packet_forge,
        packets_history: post.packets_history,
        sent_log: post.sent_log,
        notified: post.notified,
        ..pre
    })
    &&& match m {
        MessageTypeView::ChunkResponse { file_hash, chunk_index, chunk_data, .. } => {
            if pre.inner_senders@.contains_key(chunk_key(file_hash, chunk_index)) {
                // the payload enters the cache and the registered waiter
                // is woken once with a positive result
                &&& songs_view(post.song_map@) == songs_view(pre.song_map@).insert(
                    chunk_key(file_hash, chunk_index),
                    chunk_data,
                )
                &&& post.notified@ == pre.notified@.push(
                    (chunk_key(file_hash, chunk_index), true),
                )
                &&& post == (ClientState {
                    song_map: post.song_map,
                    notified: post.notified,
                    ..pre
                })
            } else {
                post == pre
            }
        },
        MessageTypeView::ResponseFileList { file_list } => {
            &&& post.status == Status::Running
            &&& post.db@.songs == db_songs_after(pre.db@.songs, file_list)
            &&& post.db@.segments == pre.db@.segments
            &&& post == (ClientState { status: post.status, db: post.db, ..pre })
        },
        MessageTypeView::ResponsePeerList { file_hash, peers } => {
            if peers.len() == 0 {
                post == pre
            } else {
                exists|mid: ClientState|
                    {
                        &&& #[trigger] mid.client_song_map@ == pre.client_song_map@.insert(
                            file_hash,
                            peers[0].client_id,
                        )
                        &&& mid == (ClientState {
                            client_song_map: mid.client_song_map,
                            ..pre
                        })
                        &&& internal_request_outcome(mid, post, file_hash, 0, peers[0].client_id)
                    }
            }
        },
        MessageTypeView::ChunkRequest { client_id, file_hash, chunk_index } => {
            &&& post.status == pre.status
            &&& post.db == pre.db
            &&& post.song_map == pre.song_map
            &&& post.client_song_map == pre.client_song_map
            &&& match chunk_index {
                crate::message::IndexView::Indexes(v) => chunk_serve_outcome(
                    pre,
                    post,
                    file_hash,
                    client_id,
                    v,
                ),
                crate::message::IndexView::All => post == pre,
            }
        },
        _ => post == pre,
    }
}

/// What one received fragment does to the reassembly buffers: a malformed
/// fragment changes nothing; a fragment of a different split for the same
/// key is dropped; a duplicate index is acknowledged but not stored; a new
/// index grows the buffer; the index completing the set has the buffer
/// assembled, dispatched and removed.
pub open spec fn fragment_buffer_outcome(
    pre: ClientState,
    post: ClientState,
    f: FragmentView,
    p: crate::packet::PacketView,
) -> bool {
    let valid = f.total_n_fragments > 0 && f.fragment_index < f.total_n_fragments
        && p.routing_header.hops.len() > 0;
    let key = reassembly_key(p.routing_header.hops[0], p.session_id);
    let buf = buffer_of(pre, key);
    let dup = has_frag_index(buf, f.fragment_index);
    let mismatch = buf.len() > 0 && buf[0].total_n_fragments != f.total_n_fragments;
    if !valid {
        post == pre
    } else if mismatch {
        &&& buffers_view(post.packets_map@) == buffers_view(pre.packets_map@)
        &&& post == (ClientState { packets_map: post.packets_map, ..pre })
    } else if dup {
        // the duplicate is acknowledged again but not stored again
        &&& buffers_view(post.packets_map@) == buffers_view(pre.packets_map@)
        &&& exists|mid: ClientState|
            {
                &&& mid == (ClientState { packets_map: mid.packets_map, ..pre })
                &&& buffers_view(mid.packets_map@) == buffers_view(pre.packets_map@)
                &&& #[trigger] ack_send_outcome(mid, post, p, f.fragment_index)
            }
    } else if buf.len() + 1 < f.total_n_fragments {
        // the fragment is stored and acknowledged
        &&& buffers_view(post.packets_map@) == buffers_view(pre.packets_map@).insert(
            key,
            buf.push(f),
        )
        &&& exists|mid1: ClientState, mid2: ClientState|
            {
                &&& mid1 == (ClientState { packets_map: mid1.packets_map, ..pre })
                &&& #[trigger] ack_send_outcome(mid1, mid2, p, f.fragment_index)
                &&& post == (ClientState { packets_map: post.packets_map, ..mid2 })
            }
    } else {
        // the set is complete: the fragment is acknowledged, the buffer is
        // assembled, dispatched upward and removed
        &&& buffers_view(post.packets_map@) == buffers_view(pre.packets_map@).remove(key)
        &&& exists|mid1: ClientState, mid2: ClientState|
            {
                &&& mid1 == (ClientState { packets_map: mid1.packets_map, ..pre })
                &&& buffers_view(mid1.packets_map@) == buffers_view(pre.packets_map@).remove(key)
                &&& #[trigger] ack_send_outcome(mid1, mid2, p, f.fragment_index)
                &&& match spec_assemble(buf.push(f)) {
                    Some(m) => node_message_outcome(mid2, post, m),
                    None => post == mid2,
                }
            }
    }
}

impl ClientState {
    /// React to one received, reassembled application message, by tag.
    /// A chunk response fills the segment cache and wakes its waiter; a
    /// file-list response fills the catalogue and moves the session to
    /// `Running`; a peer-list response records the serving peer and asks it
    /// for the first segment; a chunk request serves the requested segments
    /// back; anything else is logged and dropped.
    pub fn handle_node_message(&mut self, message: MessageType)
        requires
            old(self).wf(),
            old(self).status != Status::Terminated,
            old(self).packet_forge.spec_next_session() < u64::MAX,
        ensures
            final(self).wf(),
            node_message_outcome(*old(self), *final(self), message@),
    {
        match message {
            MessageType::ChunkResponse(chunk) => {
                let key = crate::client::chunk_key_exec(chunk.file_hash, chunk.chunk_index);
                if self.inner_senders.contains_key(&key) {
                    let ghost pre_cache = songs_view(self.song_map@);
                    self.song_map.insert(key, chunk.chunk_data);
                    proof {
                        assert(songs_view(self.song_map@) =~= pre_cache.insert(
                            key,
                            self.song_map@[key]@,
                        ));
                    }
                    self.notify_waiter(chunk.file_hash, chunk.chunk_index, true);
                } else {
                    // nobody waits for this segment: a logged anomaly
                }
                proof {
                    assert(node_message_outcome(*old(self), *self, message@));
                }
            },
            MessageType::ResponseFileList(list) => {
                let ghost full = crate::message::file_list_view(list.file_list@);
                let n = list.file_list.len();
                let mut i: usize = 0;
                proof {
                    assert(full.skip(0) =~= full);
                }
                while i < n
                    invariant
                        i <= n,
                        n == full.len(),
                        crate::message::file_list_view(list.file_list@) == full,
                        self.wf(),
                        self.db@.segments == old(self).db@.segments,
                        db_songs_after(old(self).db@.songs, full) == db_songs_after(
                            self.db@.songs,
                            full.skip(i as int),
                        ),
                        *self == (ClientState { db: self.db, ..*old(self) }),
                    decreases n - i,
                {
                    proof {
                        assert(full.skip(i as int)[0] == full[i as int]);
                        assert(full.skip(i as int).drop_first() =~= full.skip(i as int + 1));
                        assert(list.file_list@[i as int]@ == full[i as int]);
                    }
                    match &list.file_list[i] {
                        FileMetadata::Song(song) => {
                            let _ = self.db.insert_song_meta(song.dup());
                        },
                        FileMetadata::Video(_video) => {
                            // this client does not handle video files
                        },
                    }
                    i = i + 1;
                }
                proof {
                    assert(full.skip(n as int) =~= Seq::<FileMetadataView>::empty());
                }
                self.status = Status::Running;
                proof {
                    assert(node_message_outcome(*old(self), *self, message@));
                }
            },
            MessageType::ResponsePeerList(list) => {
                if list.peers.len() == 0 {
                    // an empty peer list names nobody to fetch from
                    return;
                }
                let peer = list.peers[0].client_id;
                self.client_song_map.insert(list.file_hash, peer);
                let ghost mid = *self;
                self.send_internal_segment_request(list.file_hash, 0);
                proof {
                    assert(mid.client_song_map@ == old(self).client_song_map@.insert(
                        list.file_hash,
                        peer,
                    ));
                    assert(mid.client_song_map@.contains_key(list.file_hash));
                    assert(mid.client_song_map@[list.file_hash] == peer);
                    assert(node_message_outcome(*old(self), *self, message@));
                }
            },
            MessageType::ChunkRequest(chunk) => {
                match &chunk.chunk_index {
                    Index::Indexes(indexes) => {
                        let n = indexes.len();
                        let mut i: usize = 0;
                        proof {
                            assert(indexes@.take(0) =~= Seq::<u32>::empty());
                        }
                        while i < n
                            invariant
                                i <= n,
                                n == indexes@.len(),
                                self.wf(),
                                self.status == old(self).status,
                                self.db == old(self).db,
                                self.song_map == old(self).song_map,
                                self.client_song_map == old(self).client_song_map,
                                *self == (ClientState {
                                    packet_forge: self.packet_forge,
                                    packets_history: self.packets_history,
                                    sent_log: self.sent_log,
                                    ..*old(self)
                                }),
                                chunk_serve_outcome(
                                    *old(self),
                                    *self,
                                    chunk.file_hash,
                                    chunk.client_id,
                                    indexes@.take(i as int),
                                ),
                            decreases n - i,
                        {
                            let ghost pre_step = *self;
                            if self.packet_forge.has_session() {
                                self.send_chunk_response(
                                    chunk.file_hash,
                                    indexes[i],
                                    chunk.client_id,
                                );
                                proof {
                                    if pre_step.db@.segments.contains_key(segment_key(
                                        chunk.file_hash,
                                        indexes@[i as int],
                                    )) {
                                        assert(chunk_response_message(
                                            pre_step,
                                            chunk.file_hash,
                                            indexes@[i as int],
                                        ) == (MessageTypeView::ChunkResponse {
                                            file_hash: chunk.file_hash,
                                            chunk_index: indexes@[i as int],
                                            total_chunks: 0,
                                            chunk_data: pre_step.db@.segments[segment_key(
                                                chunk.file_hash,
                                                indexes@[i as int],
                                            )],
                                        }));
                                    }
                                }
                            }
                            proof {
                                assert(chunk_step_outcome(
                                    pre_step,
                                    *self,
                                    chunk.file_hash,
                                    chunk.client_id,
                                    indexes@[i as int],
                                ));
                                lemma_chunk_serve_snoc(
                                    *old(self),
                                    pre_step,
                                    *self,
                                    chunk.file_hash,
                                    chunk.client_id,
                                    indexes@.take(i as int),
                                    indexes@[i as int],
                                );
                                assert(indexes@.take(i as int + 1) =~= indexes@.take(
                                    i as int,
                                ).push(indexes@[i as int]));
                            }
                            i = i + 1;
                        }
                        proof {
                            assert(indexes@.take(n as int) =~= indexes@);
                        }
                    },
                    Index::All => {
                        // an unparseable index set is logged and dropped
                    },
                }
                proof {
                    assert(node_message_outcome(*old(self), *self, message@));
                }
            },
            _ => {
                // any other message tag is logged and dropped
            },
        }
    }

    /// Store one received fragment in the keyed reassembly buffer,
    /// acknowledge it toward its origin, and, once the buffer holds the
    /// whole set, assemble the message, hand it to the message layer and
    /// drop the buffer.  Fragment arrival order does not matter; an index
    /// seen twice is acknowledged again but not stored again.
    pub fn fragment_handler(&mut self, fragment: &Fragment, packet: &Packet)
        requires
            old(self).wf(),
            old(self).status != Status::Terminated,
            old(self).packet_forge.spec_next_session() < u64::MAX,
        ensures
            final(self).wf(),
            status_forward(old(self).status, final(self).status),
            final(self).status != Status::Terminated,
            *final(self) == (ClientState {
                status: final(self).status,
                db: final(self).db,
                song_map: final(self).song_map,
                client_song_map: final(self).client_song_map,
                packet_forge: final(self).packet_forge,
                packets_map: final(self).packets_map,
                packets_history: final(self).packets_history,
                sent_log: final(self).sent_log,
                notified: final(self).notified,
                ..*old(self)
            }),
            fragment_buffer_outcome(*old(self), *final(self), fragment@, packet@),
    {
        if fragment.total_n_fragments == 0 || fragment.fragment_index
            >= fragment.total_n_fragments {
            // malformed fragment: dropped
            return;
        }
        if packet.routing_header.hops.len() == 0 {
            // no origin to key the buffer by: dropped
            return;
        }
        let origin = packet.routing_header.hops[0];
        let key = reassembly_key_exec(origin, packet.session_id);
        let mut frags: Vec<Fragment> = match self.packets_map.remove(&key) {
            Some(v) => v,
            None => Vec::new(),
        };
        let ghost buf = frags@.map_values(|f: Fragment| f@);
        proof {
            if old(self).packets_map@.contains_key(key) {
                assert(buffers_view(old(self).packets_map@)[key] == old(
                    self,
                ).packets_map@[key]@.map_values(|f: Fragment| f@));
                assert(buf == buffers_view(old(self).packets_map@)[key]);
            } else {
                assert(buf =~= Seq::<FragmentView>::empty());
            }
        }
        if frags.len() > 0 && frags[0].total_n_fragments != fragment.total_n_fragments {
            // a fragment of a different split for the same key: dropped
            self.packets_map.insert(key, frags);
            proof {
                assert(buffers_view(self.packets_map@) =~= buffers_view(old(self).packets_map@));
            }
            return;
        }
        let n = frags.len();
        let mut i: usize = 0;
        let mut isdup = false;
        while i < n
            invariant
                i <= n,
                n == buf.len(),
                frags@.map_values(|f: Fragment| f@) == buf,
                isdup == exists|j: int| 0 <= j < i && (#[trigger] buf[j]).fragment_index
                    == fragment@.fragment_index,
            decreases n - i,
        {
            if frags[i].fragment_index == fragment.fragment_index {
                isdup = true;
            }
            proof {
                assert(buf[i as int] == frags@[i as int]@);
            }
            i = i + 1;
        }
        if isdup {
            proof {
                assert(buf[0] == frags@[0]@);
            }
            self.packets_map.insert(key, frags);
            proof {
                assert(buffers_view(self.packets_map@) =~= buffers_view(old(self).packets_map@));
            }
            let ghost mid = *self;
            self.send_ack(packet, fragment.fragment_index);
            proof {
                assert(self.packets_map == mid.packets_map);
                assert(buffers_view(self.packets_map@) == buffers_view(old(self).packets_map@));
                assert(*self == (ClientState {
                    packets_map: self.packets_map,
                    packets_history: self.packets_history,
                    sent_log: self.sent_log,
                    ..*old(self)
                }));
                assert(buffer_of(*old(self), key) == buf);
                assert(has_frag_index(buf, fragment@.fragment_index));
                assert(fragment_buffer_outcome(*old(self), *self, fragment@, packet@));
            }
            return;
        }
        let total = fragment.total_n_fragments;
        frags.push(fragment.dup());
        let ghost newbuf = buf.push(fragment@);
        proof {
            assert(frags@.map_values(|f: Fragment| f@) =~= newbuf);
            assert(buffer_wf(buf) || buf.len() == 0);
            assert forall|a: int, b: int| 0 <= a < b < newbuf.len() implies (
            #[trigger] newbuf[a]).fragment_index != (#[trigger] newbuf[b]).fragment_index by {
                if b < buf.len() {
                    assert(newbuf[a] == buf[a] && newbuf[b] == buf[b]);
                } else {
                    assert(newbuf[b] == fragment@);
                    assert(newbuf[a] == buf[a]);
                }
            }
        }
        self.send_ack(packet, fragment.fragment_index);
        if frags.len() as u64 == total {
            match self.packet_forge.assemble_dynamic(&frags) {
                Ok(assembled) => {
                    self.handle_node_message(assembled);
                },
                Err(_) => {
                    // the fragment set does not decode: dropped
                },
            }
            proof {
                assert(buffers_view(self.packets_map@) =~= buffers_view(
                    old(self).packets_map@,
                ).remove(key));
            }
        } else {
            self.packets_map.insert(key, frags);
            proof {
                assert(buffers_view(self.packets_map@) =~= buffers_view(
                    old(self).packets_map@,
                ).insert(key, newbuf));
                assert(buffer_wf(newbuf));
            }
        }
    }
}

} // verus!
