//! The message wire-codec: an application-level message is serialized to
//! bytes, the bytes are split into fixed-size fragments, and on the far side
//! the fragments are reordered by index, concatenated and deserialized.
//!
//! Every scalar is written as eight little-endian bytes; byte strings and
//! lists carry an eight-byte length prefix.  Decoding accepts exactly the
//! byte strings that encoding produces, which gives the round-trip law
//! proved in [`crate::laws`].

use vstd::prelude::*;
use crate::packet::{
    copy_vec, Fragment, FragmentView, Packet, PacketView, PacketTypeView, SourceRoutingHeader,
};
use crate::message::{
    ClientType, FileMetadata, FileMetadataView, Index, IndexView, MessageType, MessageTypeView,
    Peer, SongMetaDataView, VideoMetaDataView,
};

verus! {

/// 256 to the power `k`: the number of values of a `k`-byte scalar.
pub open spec fn pow256(k: nat) -> int
    decreases k,
{
    if k == 0 {
        1
    } else {
        256 * pow256((k - 1) as nat)
    }
}

pub proof fn lemma_pow256_pos(k: nat)
    ensures
        pow256(k) >= 1,
    decreases k,
{
    if k > 0 {
        lemma_pow256_pos((k - 1) as nat);
    }
}

pub proof fn lemma_pow256_8()
    ensures
        pow256(8) == 0x1_0000_0000_0000_0000,
{
    reveal_with_fuel(pow256, 9);
}

/// The `k` little-endian bytes of `x` (high bits beyond `k` bytes are
/// dropped).
pub open spec fn enc_le(x: int, k: nat) -> Seq<u8>
    decreases k,
{
    if k == 0 {
        Seq::<u8>::empty()
    } else {
        seq![(x % 256) as u8] + enc_le(x / 256, (k - 1) as nat)
    }
}

/// The value of a little-endian byte string.
pub open spec fn dec_le(s: Seq<u8>) -> int
    decreases s.len(),
{
    if s.len() == 0 {
        0
    } else {
        s[0] + 256 * dec_le(s.drop_first())
    }
}

pub proof fn lemma_enc_le_len(x: int, k: nat)
    ensures
        enc_le(x, k).len() == k,
    decreases k,
{
    if k > 0 {
        lemma_enc_le_len(x / 256, (k - 1) as nat);
    }
}

pub proof fn lemma_enc_dec_le(x: int, k: nat)
    requires
        0 <= x < pow256(k),
    ensures
        dec_le(enc_le(x, k)) == x,
    decreases k,
{
    if k > 0 {
        assert(0 <= x / 256 < pow256((k - 1) as nat)) by (nonlinear_arith)
            requires
                0 <= x < 256 * pow256((k - 1) as nat),
                pow256((k - 1) as nat) >= 1,
        {}
        lemma_pow256_pos((k - 1) as nat);
        lemma_enc_dec_le(x / 256, (k - 1) as nat);
        assert(enc_le(x, k).drop_first() =~= enc_le(x / 256, (k - 1) as nat));
    }
}

pub proof fn lemma_dec_le_bound(s: Seq<u8>)
    ensures
        0 <= dec_le(s) < pow256(s.len()),
    decreases s.len(),
{
    if s.len() == 0 {
    } else {
        lemma_dec_le_bound(s.drop_first());
    }
}

/// One eight-byte scalar.
pub open spec fn enc_num(x: u64) -> Seq<u8> {
    enc_le(x as int, 8)
}

/// Whether the chunk `c` stands in `s` at position `pos`.
pub open spec fn chunk_at(s: Seq<u8>, pos: int, c: Seq<u8>) -> bool {
    &&& 0 <= pos
    &&& pos + c.len() <= s.len()
    &&& s.subrange(pos, pos + c.len()) == c
}

/// A chunk that is a concatenation stands in `s` piece by piece.
pub proof fn lemma_chunk_at_concat(s: Seq<u8>, pos: int, c1: Seq<u8>, c2: Seq<u8>)
    requires
        chunk_at(s, pos, c1 + c2),
    ensures
        chunk_at(s, pos, c1),
        chunk_at(s, pos + c1.len(), c2),
{
    assert(s.subrange(pos, pos + c1.len()) =~= c1);
    assert forall|j: int| 0 <= j < c2.len() implies s.subrange(
        pos + c1.len(),
        pos + c1.len() + c2.len(),
    )[j] == c2[j] by {
        assert((c1 + c2)[c1.len() + j] == c2[j]);
        assert(s.subrange(pos, pos + (c1 + c2).len())[c1.len() + j] == s[pos + c1.len() + j]);
    }
    assert(s.subrange(pos + c1.len(), pos + c1.len() + c2.len()) =~= c2);
}

/// Reading an eight-byte scalar at `pos`.
pub open spec fn dec_num_at(s: Seq<u8>, pos: int) -> Option<(u64, int)> {
    if 0 <= pos && pos + 8 <= s.len() {
        Some(((dec_le(s.subrange(pos, pos + 8)) as u64), pos + 8))
    } else {
        None
    }
}

pub proof fn lemma_dec_num_at(s: Seq<u8>, pos: int, x: u64)
    requires
        chunk_at(s, pos, enc_num(x)),
    ensures
        dec_num_at(s, pos) == Some((x, pos + 8)),
{
    lemma_enc_le_len(x as int, 8);
    lemma_pow256_8();
    lemma_enc_dec_le(x as int, 8);
}

/// A length-prefixed byte string.
pub open spec fn enc_bytes(b: Seq<u8>) -> Seq<u8> {
    enc_le(b.len() as int, 8) + b
}

/// Reading a length-prefixed byte string at `pos`.
pub open spec fn dec_bytes_at(s: Seq<u8>, pos: int) -> Option<(Seq<u8>, int)> {
    match dec_num_at(s, pos) {
        Some((n, p)) => if p + n <= s.len() {
            Some((s.subrange(p, p + n), p + n))
        } else {
            None
        },
        None => None,
    }
}

pub proof fn lemma_dec_bytes_at(s: Seq<u8>, pos: int, b: Seq<u8>)
    requires
        chunk_at(s, pos, enc_bytes(b)),
        b.len() < pow256(8),
    ensures
        dec_bytes_at(s, pos) == Some((b, pos + 8 + b.len())),
{
    lemma_pow256_8();
    lemma_enc_le_len(b.len() as int, 8);
    lemma_chunk_at_concat(s, pos, enc_le(b.len() as int, 8), b);
    lemma_dec_num_at(s, pos, b.len() as u64);
    assert(s.subrange(pos + 8, pos + 8 + b.len()) == b);
}

/// The wire tag of a client type.
pub open spec fn client_type_tag(c: ClientType) -> u64 {
    match c {
        ClientType::Song => 1,
        ClientType::Video => 2,
    }
}

/// Reading a client type at `pos`.
pub open spec fn dec_client_type_at(s: Seq<u8>, pos: int) -> Option<(ClientType, int)> {
    match dec_num_at(s, pos) {
        Some((t, p)) => if t == 1 {
            Some((ClientType::Song, p))
        } else if t == 2 {
            Some((ClientType::Video, p))
        } else {
            None
        },
        None => None,
    }
}

/// One catalogue entry: a tag, the id, and the entry's byte-string fields.
pub open spec fn enc_filemeta(f: FileMetadataView) -> Seq<u8> {
    match f {
        FileMetadataView::Song(m) => enc_num(1) + enc_num(m.id as u64) + enc_bytes(m.title)
            + enc_bytes(m.artist),
        FileMetadataView::Video(m) => enc_num(2) + enc_num(m.id as u64) + enc_bytes(m.title),
    }
}

/// Reading one catalogue entry at `pos`.
pub open spec fn dec_filemeta_at(s: Seq<u8>, pos: int) -> Option<(FileMetadataView, int)> {
    match dec_num_at(s, pos) {
        Some((tag, p0)) => if tag == 1 {
            match dec_num_at(s, p0) {
                Some((id, p1)) => if id <= 0xFFFF {
                    match dec_bytes_at(s, p1) {
                        Some((title, p2)) => match dec_bytes_at(s, p2) {
                            Some((artist, p3)) => Some(
                                (
                                    FileMetadataView::Song(
                                        SongMetaDataView { id: id as u16, title, artist },
                                    ),
                                    p3,
                                ),
                            ),
                            None => None,
                        },
                        None => None,
                    }
                } else {
                    None
                },
                None => None,
            }
        } else if tag == 2 {
            match dec_num_at(s, p0) {
                Some((id, p1)) => if id <= 0xFFFF {
                    match dec_bytes_at(s, p1) {
                        Some((title, p2)) => Some(
                            (FileMetadataView::Video(VideoMetaDataView { id: id as u16, title }), p2),
                        ),
                        None => None,
                    }
                } else {
                    None
                },
                None => None,
            }
        } else {
            None
        },
        None => None,
    }
}

/// The byte-string fields of a catalogue entry are bounded by the wire
/// format's length prefix.
pub open spec fn filemeta_bounded(f: FileMetadataView) -> bool {
    match f {
        FileMetadataView::Song(m) => m.title.len() < pow256(8) && m.artist.len() < pow256(8),
        FileMetadataView::Video(m) => m.title.len() < pow256(8),
    }
}

pub proof fn lemma_dec_filemeta_at(s: Seq<u8>, pos: int, f: FileMetadataView)
    requires
        chunk_at(s, pos, enc_filemeta(f)),
        filemeta_bounded(f),
    ensures
        dec_filemeta_at(s, pos) == Some((f, pos + enc_filemeta(f).len())),
{
    match f {
        FileMetadataView::Song(m) => {
            lemma_chunk_at_concat(
                s,
                pos,
                enc_num(1) + enc_num(m.id as u64) + enc_bytes(m.title),
                enc_bytes(m.artist),
            );
            lemma_chunk_at_concat(s, pos, enc_num(1) + enc_num(m.id as u64), enc_bytes(m.title));
            lemma_chunk_at_concat(s, pos, enc_num(1), enc_num(m.id as u64));
            assert(enc_filemeta(f) == (enc_num(1) + enc_num(m.id as u64) + enc_bytes(m.title))
                + enc_bytes(m.artist));
            assert(chunk_at(s, pos, enc_num(1) + enc_num(m.id as u64) + enc_bytes(m.title)));
            lemma_enc_le_len(1, 8);
            lemma_enc_le_len(m.id as int, 8);
            lemma_enc_le_len(m.title.len() as int, 8);
            lemma_enc_le_len(m.artist.len() as int, 8);
            lemma_dec_num_at(s, pos, 1);
            lemma_dec_num_at(s, pos + 8, m.id as u64);
            lemma_dec_bytes_at(s, pos + 16, m.title);
            lemma_dec_bytes_at(s, pos + 16 + 8 + m.title.len(), m.artist);
        },
        FileMetadataView::Video(m) => {
            lemma_chunk_at_concat(s, pos, enc_num(2) + enc_num(m.id as u64), enc_bytes(m.title));
            lemma_chunk_at_concat(s, pos, enc_num(2), enc_num(m.id as u64));
            assert(enc_filemeta(f) == (enc_num(2) + enc_num(m.id as u64)) + enc_bytes(m.title));
            assert(chunk_at(s, pos, enc_num(2) + enc_num(m.id as u64)));
            lemma_enc_le_len(2, 8);
            lemma_enc_le_len(m.id as int, 8);
            lemma_enc_le_len(m.title.len() as int, 8);
            lemma_dec_num_at(s, pos, 2);
            lemma_dec_num_at(s, pos + 8, m.id as u64);
            lemma_dec_bytes_at(s, pos + 16, m.title);
        },
    }
}

/// The items of a catalogue list, one entry after the other.
pub open spec fn enc_filemeta_items(l: Seq<FileMetadataView>) -> Seq<u8>
    decreases l.len(),
{
    if l.len() == 0 {
        Seq::<u8>::empty()
    } else {
        enc_filemeta(l[0]) + enc_filemeta_items(l.drop_first())
    }
}

/// A length-prefixed catalogue list.
pub open spec fn enc_filelist(l: Seq<FileMetadataView>) -> Seq<u8> {
    enc_le(l.len() as int, 8) + enc_filemeta_items(l)
}

/// Reading `n` catalogue entries at `pos`.
pub open spec fn dec_filemeta_items(s: Seq<u8>, pos: int, n: nat) -> Option<
    (Seq<FileMetadataView>, int),
>
    decreases n,
{
    if n == 0 {
        Some((Seq::<FileMetadataView>::empty(), pos))
    } else {
        match dec_filemeta_at(s, pos) {
            Some((f, p)) => match dec_filemeta_items(s, p, (n - 1) as nat) {
                Some((rest, end)) => Some((seq![f] + rest, end)),
                None => None,
            },
            None => None,
        }
    }
}

pub open spec fn filelist_bounded(l: Seq<FileMetadataView>) -> bool {
    &&& l.len() < pow256(8)
    &&& forall|i: int| 0 <= i < l.len() ==> filemeta_bounded(#[trigger] l[i])
}

pub proof fn lemma_dec_filemeta_items(s: Seq<u8>, pos: int, l: Seq<FileMetadataView>)
    requires
        chunk_at(s, pos, enc_filemeta_items(l)),
        forall|i: int| 0 <= i < l.len() ==> filemeta_bounded(#[trigger] l[i]),
    ensures
        dec_filemeta_items(s, pos, l.len()) == Some((l, pos + enc_filemeta_items(l).len())),
    decreases l.len(),
{
    if l.len() == 0 {
        assert(l =~= Seq::<FileMetadataView>::empty());
    } else {
        lemma_chunk_at_concat(s, pos, enc_filemeta(l[0]), enc_filemeta_items(l.drop_first()));
        lemma_dec_filemeta_at(s, pos, l[0]);
        lemma_dec_filemeta_items(s, pos + enc_filemeta(l[0]).len(), l.drop_first());
        assert(seq![l[0]] + l.drop_first() =~= l);
    }
}

pub proof fn lemma_dec_filelist(s: Seq<u8>, pos: int, l: Seq<FileMetadataView>)
    requires
        chunk_at(s, pos, enc_filelist(l)),
        filelist_bounded(l),
    ensures
        dec_num_at(s, pos) == Some((l.len() as u64, pos + 8)),
        dec_filemeta_items(s, pos + 8, l.len()) == Some(
            (l, pos + enc_filelist(l).len()),
        ),
{
    lemma_enc_le_len(l.len() as int, 8);
    lemma_chunk_at_concat(s, pos, enc_le(l.len() as int, 8), enc_filemeta_items(l));
    lemma_pow256_8();
    lemma_dec_num_at(s, pos, l.len() as u64);
    lemma_dec_filemeta_items(s, pos + 8, l);
}

/// The items of a segment-index list.
pub open spec fn enc_u32_items(l: Seq<u32>) -> Seq<u8>
    decreases l.len(),
{
    if l.len() == 0 {
        Seq::<u8>::empty()
    } else {
        enc_num(l[0] as u64) + enc_u32_items(l.drop_first())
    }
}

/// Reading `n` segment indices at `pos`.
pub open spec fn dec_u32_items(s: Seq<u8>, pos: int, n: nat) -> Option<(Seq<u32>, int)>
    decreases n,
{
    if n == 0 {
        Some((Seq::<u32>::empty(), pos))
    } else {
        match dec_num_at(s, pos) {
            Some((x, p)) => if x <= u32::MAX {
                match dec_u32_items(s, p, (n - 1) as nat) {
                    Some((rest, end)) => Some((seq![x as u32] + rest, end)),
                    None => None,
                }
            } else {
                None
            },
            None => None,
        }
    }
}

pub proof fn lemma_dec_u32_items(s: Seq<u8>, pos: int, l: Seq<u32>)
    requires
        chunk_at(s, pos, enc_u32_items(l)),
    ensures
        dec_u32_items(s, pos, l.len()) == Some((l, pos + enc_u32_items(l).len())),
    decreases l.len(),
{
    if l.len() == 0 {
        assert(l =~= Seq::<u32>::empty());
    } else {
        lemma_enc_le_len(l[0] as int, 8);
        lemma_chunk_at_concat(s, pos, enc_num(l[0] as u64), enc_u32_items(l.drop_first()));
        lemma_dec_num_at(s, pos, l[0] as u64);
        lemma_dec_u32_items(s, pos + 8, l.drop_first());
        assert(seq![l[0]] + l.drop_first() =~= l);
    }
}

/// The wire form of an index set.
pub open spec fn enc_index(ix: IndexView) -> Seq<u8> {
    match ix {
        IndexView::All => enc_num(0),
        IndexView::Indexes(l) => enc_num(1) + enc_le(l.len() as int, 8) + enc_u32_items(l),
    }
}

/// Reading an index set at `pos`.
pub open spec fn dec_index_at(s: Seq<u8>, pos: int) -> Option<(IndexView, int)> {
    match dec_num_at(s, pos) {
        Some((tag, p0)) => if tag == 0 {
            Some((IndexView::All, p0))
        } else if tag == 1 {
            match dec_num_at(s, p0) {
                Some((n, p1)) => match dec_u32_items(s, p1, n as nat) {
                    Some((l, end)) => Some((IndexView::Indexes(l), end)),
                    None => None,
                },
                None => None,
            }
        } else {
            None
        },
        None => None,
    }
}

pub open spec fn index_bounded(ix: IndexView) -> bool {
    ix matches IndexView::Indexes(l) ==> l.len() < pow256(8)
}

pub proof fn lemma_dec_index_at(s: Seq<u8>, pos: int, ix: IndexView)
    requires
        chunk_at(s, pos, enc_index(ix)),
        index_bounded(ix),
    ensures
        dec_index_at(s, pos) == Some((ix, pos + enc_index(ix).len())),
{
    match ix {
        IndexView::All => {
            lemma_enc_le_len(0, 8);
            lemma_dec_num_at(s, pos, 0);
        },
        IndexView::Indexes(l) => {
            lemma_enc_le_len(1, 8);
            lemma_enc_le_len(l.len() as int, 8);
            lemma_chunk_at_concat(
                s,
                pos,
                enc_num(1) + enc_le(l.len() as int, 8),
                enc_u32_items(l),
            );
            lemma_chunk_at_concat(s, pos, enc_num(1), enc_le(l.len() as int, 8));
            assert(enc_index(ix) == (enc_num(1) + enc_le(l.len() as int, 8)) + enc_u32_items(l));
            assert(chunk_at(s, pos, enc_num(1) + enc_le(l.len() as int, 8)));
            lemma_dec_num_at(s, pos, 1);
            lemma_pow256_8();
            lemma_dec_num_at(s, pos + 8, l.len() as u64);
            lemma_dec_u32_items(s, pos + 16, l);
        },
    }
}

/// The items of a peer list: each peer's node id.
pub open spec fn enc_peer_items(l: Seq<Peer>) -> Seq<u8>
    decreases l.len(),
{
    if l.len() == 0 {
        Seq::<u8>::empty()
    } else {
        enc_num(l[0].client_id as u64) + enc_peer_items(l.drop_first())
    }
}

/// Reading `n` peers at `pos`.
pub open spec fn dec_peer_items(s: Seq<u8>, pos: int, n: nat) -> Option<(Seq<Peer>, int)>
    decreases n,
{
    if n == 0 {
        Some((Seq::<Peer>::empty(), pos))
    } else {
        match dec_num_at(s, pos) {
            Some((x, p)) => if x <= 0xFF {
                match dec_peer_items(s, p, (n - 1) as nat) {
                    Some((rest, end)) => Some((seq![Peer { client_id: x as u8 }] + rest, end)),
                    None => None,
                }
            } else {
                None
            },
            None => None,
        }
    }
}

pub proof fn lemma_dec_peer_items(s: Seq<u8>, pos: int, l: Seq<Peer>)
    requires
        chunk_at(s, pos, enc_peer_items(l)),
    ensures
        dec_peer_items(s, pos, l.len()) == Some((l, pos + enc_peer_items(l).len())),
    decreases l.len(),
{
    if l.len() == 0 {
        assert(l =~= Seq::<Peer>::empty());
    } else {
        lemma_enc_le_len(l[0].client_id as int, 8);
        lemma_chunk_at_concat(s, pos, enc_num(l[0].client_id as u64), enc_peer_items(
            l.drop_first(),
        ));
        lemma_dec_num_at(s, pos, l[0].client_id as u64);
        lemma_dec_peer_items(s, pos + 8, l.drop_first());
        assert(seq![l[0]] + l.drop_first() =~= l);
    }
}

/// The wire form of one application-level message: a tag, then the
/// variant's fields.
pub open spec fn spec_encode_message(m: MessageTypeView) -> Seq<u8> {
    match m {
        MessageTypeView::SubscribeClient { client_id, client_type, file_list } => enc_num(1)
            + enc_num(client_id as u64) + enc_num(client_type_tag(client_type)) + enc_filelist(
            file_list,
        ),
        MessageTypeView::UnsubscribeClient { client_id } => enc_num(2) + enc_num(client_id as u64),
        MessageTypeView::RequestFileList { client_id } => enc_num(3) + enc_num(client_id as u64),
        MessageTypeView::ResponseFileList { file_list } => enc_num(4) + enc_filelist(file_list),
        MessageTypeView::RequestPeerList { client_id, file_hash } => enc_num(5) + enc_num(
            client_id as u64,
        ) + enc_num(file_hash as u64),
        MessageTypeView::ResponsePeerList { file_hash, peers } => enc_num(6) + enc_num(
            file_hash as u64,
        ) + enc_le(peers.len() as int, 8) + enc_peer_items(peers),
        MessageTypeView::ChunkRequest { client_id, file_hash, chunk_index } => enc_num(7)
            + enc_num(client_id as u64) + enc_num(file_hash as u64) + enc_index(chunk_index),
        MessageTypeView::ChunkResponse { file_hash, chunk_index, total_chunks, chunk_data } =>
            enc_num(8) + enc_num(file_hash as u64) + enc_num(chunk_index as u64) + enc_num(
            total_chunks as u64,
        ) + enc_bytes(chunk_data),
    }
}

/// The lengths inside a message fit the wire format's eight-byte prefixes;
/// every message held in executable vectors satisfies this.
pub open spec fn msg_bounded(m: MessageTypeView) -> bool {
    match m {
        MessageTypeView::SubscribeClient { file_list, .. } => filelist_bounded(file_list),
        MessageTypeView::ResponseFileList { file_list } => filelist_bounded(file_list),
        MessageTypeView::ResponsePeerList { peers, .. } => peers.len() < pow256(8),
        MessageTypeView::ChunkRequest { chunk_index, .. } => index_bounded(chunk_index),
        MessageTypeView::ChunkResponse { chunk_data, .. } => chunk_data.len() < pow256(8),
        _ => true,
    }
}

/// Reading a subscribe message's fields after the tag.
pub open spec fn dec_msg_subscribe(s: Seq<u8>, p0: int) -> Option<MessageTypeView> {
    match dec_num_at(s, p0) {
        Some((cid, p1)) => if cid <= 0xFF {
            match dec_client_type_at(s, p1) {
                Some((ct, p2)) => match dec_num_at(s, p2) {
                    Some((n, p3)) => match dec_filemeta_items(s, p3, n as nat) {
                        Some((l, end)) => if end == s.len() {
                            Some(
                                MessageTypeView::SubscribeClient {
                                    client_id: cid as u8,
                                    client_type: ct,
                                    file_list: l,
                                },
                            )
                        } else {
                            None
                        },
                        None => None,
                    },
                    None => None,
                },
                None => None,
            }
        } else {
            None
        },
        None => None,
    }
}

/// Reading an unsubscribe message's fields after the tag.
pub open spec fn dec_msg_unsubscribe(s: Seq<u8>, p0: int) -> Option<MessageTypeView> {
    match dec_num_at(s, p0) {
        Some((cid, p1)) => if cid <= 0xFF && p1 == s.len() {
            Some(MessageTypeView::UnsubscribeClient { client_id: cid as u8 })
        } else {
            None
        },
        None => None,
    }
}

/// Reading a file-list request's fields after the tag.
pub open spec fn dec_msg_request_filelist(s: Seq<u8>, p0: int) -> Option<MessageTypeView> {
    match dec_num_at(s, p0) {
        Some((cid, p1)) => if cid <= 0xFF && p1 == s.len() {
            Some(MessageTypeView::RequestFileList { client_id: cid as u8 })
        } else {
            None
        },
        None => None,
    }
}

/// Reading a file-list response's fields after the tag.
pub open spec fn dec_msg_response_filelist(s: Seq<u8>, p0: int) -> Option<MessageTypeView> {
    match dec_num_at(s, p0) {
        Some((n, p1)) => match dec_filemeta_items(s, p1, n as nat) {
            Some((l, end)) => if end == s.len() {
                Some(MessageTypeView::ResponseFileList { file_list: l })
            } else {
                None
            },
            None => None,
        },
        None => None,
    }
}

/// Reading a peer-list request's fields after the tag.
pub open spec fn dec_msg_request_peerlist(s: Seq<u8>, p0: int) -> Option<MessageTypeView> {
    match dec_num_at(s, p0) {
        Some((cid, p1)) => if cid <= 0xFF {
            match dec_num_at(s, p1) {
                Some((fh, p2)) => if fh <= 0xFFFF && p2 == s.len() {
                    Some(
                        MessageTypeView::RequestPeerList {
                            client_id: cid as u8,
                            file_hash: fh as u16,
                        },
                    )
                } else {
                    None
                },
                None => None,
            }
        } else {
            None
        },
        None => None,
    }
}

/// Reading a peer-list response's fields after the tag.
pub open spec fn dec_msg_response_peerlist(s: Seq<u8>, p0: int) -> Option<MessageTypeView> {
    match dec_num_at(s, p0) {
        Some((fh, p1)) => if fh <= 0xFFFF {
            match dec_num_at(s, p1) {
                Some((n, p2)) => match dec_peer_items(s, p2, n as nat) {
                    Some((l, end)) => if end == s.len() {
                        Some(MessageTypeView::ResponsePeerList { file_hash: fh as u16, peers: l })
                    } else {
                        None
                    },
                    None => None,
                },
                None => None,
            }
        } else {
            None
        },
        None => None,
    }
}

/// Reading a chunk request's fields after the tag.
pub open spec fn dec_msg_chunk_request(s: Seq<u8>, p0: int) -> Option<MessageTypeView> {
    match dec_num_at(s, p0) {
        Some((cid, p1)) => if cid <= 0xFF {
            match dec_num_at(s, p1) {
                Some((fh, p2)) => if fh <= 0xFFFF {
                    match dec_index_at(s, p2) {
                        Some((ix, end)) => if end == s.len() {
                            Some(
                                MessageTypeView::ChunkRequest {
                                    client_id: cid as u8,
                                    file_hash: fh as u16,
                                    chunk_index: ix,
                                },
                            )
                        } else {
                            None
                        },
                        None => None,
                    }
                } else {
                    None
                },
                None => None,
            }
        } else {
            None
        },
        None => None,
    }
}

/// Reading a chunk response's fields after the tag.
pub open spec fn dec_msg_chunk_response(s: Seq<u8>, p0: int) -> Option<MessageTypeView> {
    match dec_num_at(s, p0) {
        Some((fh, p1)) => if fh <= 0xFFFF {
            match dec_num_at(s, p1) {
                Some((ci, p2)) => if ci <= u32::MAX {
                    match dec_num_at(s, p2) {
                        Some((tc, p3)) => if tc <= u32::MAX {
                            match dec_bytes_at(s, p3) {
                                Some((b, end)) => if end == s.len() {
                                    Some(
                                        MessageTypeView::ChunkResponse {
                                            file_hash: fh as u16,
                                            chunk_index: ci as u32,
                                            total_chunks: tc as u32,
                                            chunk_data: b,
                                        },
                                    )
                                } else {
                                    None
                                },
                                None => None,
                            }
                        } else {
                            None
                        },
                        None => None,
                    }
                } else {
                    None
                },
                None => None,
            }
        } else {
            None
        },
        None => None,
    }
}

/// Reading one whole message: the tag dispatches, and every byte of the
/// input must be consumed.
pub open spec fn spec_decode_message(s: Seq<u8>) -> Option<MessageTypeView> {
    match dec_num_at(s, 0) {
        Some((tag, p0)) => if tag == 1 {
            dec_msg_subscribe(s, p0)
        } else if tag == 2 {
            dec_msg_unsubscribe(s, p0)
        } else if tag == 3 {
            dec_msg_request_filelist(s, p0)
        } else if tag == 4 {
            dec_msg_response_filelist(s, p0)
        } else if tag == 5 {
            dec_msg_request_peerlist(s, p0)
        } else if tag == 6 {
            dec_msg_response_peerlist(s, p0)
        } else if tag == 7 {
            dec_msg_chunk_request(s, p0)
        } else if tag == 8 {
            dec_msg_chunk_response(s, p0)
        } else {
            None
        },
        None => None,
    }
}

proof fn lemma_rt_subscribe(client_id: u8, client_type: ClientType, file_list: Seq<FileMetadataView>)
    requires
        filelist_bounded(file_list),
    ensures
        ({
            let m = (MessageTypeView::SubscribeClient { client_id, client_type, file_list });
            spec_decode_message(spec_encode_message(m)) == Some(m)
        }),
{
    let m = (MessageTypeView::SubscribeClient { client_id, client_type, file_list });
    let s = spec_encode_message(m);
    assert(s.subrange(0, s.len() as int) =~= s);
    lemma_pow256_8();
    let c1 = enc_num(1);
    let c2 = enc_num(client_id as u64);
    let c3 = enc_num(client_type_tag(client_type));
    lemma_enc_le_len(1, 8);
    lemma_enc_le_len(client_id as int, 8);
    lemma_enc_le_len(client_type_tag(client_type) as int, 8);
    lemma_enc_le_len(file_list.len() as int, 8);
    lemma_chunk_at_concat(s, 0, c1 + c2 + c3, enc_filelist(file_list));
    lemma_chunk_at_concat(s, 0, c1 + c2, c3);
    lemma_chunk_at_concat(s, 0, c1, c2);
    lemma_dec_num_at(s, 0, 1);
    lemma_dec_num_at(s, 8, client_id as u64);
    lemma_dec_num_at(s, 16, client_type_tag(client_type));
    lemma_dec_filelist(s, 24, file_list);
}

proof fn lemma_rt_two_nums(tag: u64, a: u64)
    requires
        1 <= tag <= 8,
    ensures
        dec_num_at(enc_num(tag) + enc_num(a), 0) == Some((tag, 8int)),
        dec_num_at(enc_num(tag) + enc_num(a), 8) == Some((a, 16int)),
        (enc_num(tag) + enc_num(a)).len() == 16,
{
    let s = enc_num(tag) + enc_num(a);
    assert(s.subrange(0, s.len() as int) =~= s);
    lemma_enc_le_len(tag as int, 8);
    lemma_enc_le_len(a as int, 8);
    lemma_chunk_at_concat(s, 0, enc_num(tag), enc_num(a));
    lemma_dec_num_at(s, 0, tag);
    lemma_dec_num_at(s, 8, a);
}

proof fn lemma_rt_response_filelist(file_list: Seq<FileMetadataView>)
    requires
        filelist_bounded(file_list),
    ensures
        ({
            let m = (MessageTypeView::ResponseFileList { file_list });
            spec_decode_message(spec_encode_message(m)) == Some(m)
        }),
{
    let m = (MessageTypeView::ResponseFileList { file_list });
    let s = spec_encode_message(m);
    assert(s.subrange(0, s.len() as int) =~= s);
    lemma_pow256_8();
    lemma_enc_le_len(4, 8);
    lemma_chunk_at_concat(s, 0, enc_num(4), enc_filelist(file_list));
    lemma_dec_num_at(s, 0, 4);
    lemma_dec_filelist(s, 8, file_list);
}

proof fn lemma_rt_request_peerlist(client_id: u8, file_hash: u16)
    ensures
        ({
            let m = (MessageTypeView::RequestPeerList { client_id, file_hash });
            spec_decode_message(spec_encode_message(m)) == Some(m)
        }),
{
    let m = (MessageTypeView::RequestPeerList { client_id, file_hash });
    let s = spec_encode_message(m);
    assert(s.subrange(0, s.len() as int) =~= s);
    lemma_pow256_8();
    lemma_enc_le_len(5, 8);
    lemma_enc_le_len(client_id as int, 8);
    lemma_enc_le_len(file_hash as int, 8);
    lemma_chunk_at_concat(s, 0, enc_num(5) + enc_num(client_id as u64), enc_num(file_hash as u64));
    lemma_chunk_at_concat(s, 0, enc_num(5), enc_num(client_id as u64));
    lemma_dec_num_at(s, 0, 5);
    lemma_dec_num_at(s, 8, client_id as u64);
    lemma_dec_num_at(s, 16, file_hash as u64);
}

proof fn lemma_rt_response_peerlist(file_hash: u16, peers: Seq<Peer>)
    requires
        peers.len() < pow256(8),
    ensures
        ({
            let m = (MessageTypeView::ResponsePeerList { file_hash, peers });
            spec_decode_message(spec_encode_message(m)) == Some(m)
        }),
{
    let m = (MessageTypeView::ResponsePeerList { file_hash, peers });
    let s = spec_encode_message(m);
    assert(s.subrange(0, s.len() as int) =~= s);
    lemma_pow256_8();
    lemma_enc_le_len(6, 8);
    lemma_enc_le_len(file_hash as int, 8);
    lemma_enc_le_len(peers.len() as int, 8);
    lemma_chunk_at_concat(
        s,
        0,
        enc_num(6) + enc_num(file_hash as u64) + enc_le(peers.len() as int, 8),
        enc_peer_items(peers),
    );
    lemma_chunk_at_concat(s, 0, enc_num(6) + enc_num(file_hash as u64), enc_le(
        peers.len() as int,
        8,
    ));
    lemma_chunk_at_concat(s, 0, enc_num(6), enc_num(file_hash as u64));
    lemma_dec_num_at(s, 0, 6);
    lemma_dec_num_at(s, 8, file_hash as u64);
    lemma_dec_num_at(s, 16, peers.len() as u64);
    lemma_dec_peer_items(s, 24, peers);
}

proof fn lemma_rt_chunk_request(client_id: u8, file_hash: u16, chunk_index: IndexView)
    requires
        index_bounded(chunk_index),
    ensures
        ({
            let m = (MessageTypeView::ChunkRequest { client_id, file_hash, chunk_index });
            spec_decode_message(spec_encode_message(m)) == Some(m)
        }),
{
    let m = (MessageTypeView::ChunkRequest { client_id, file_hash, chunk_index });
    let s = spec_encode_message(m);
    assert(s.subrange(0, s.len() as int) =~= s);
    lemma_pow256_8();
    lemma_enc_le_len(7, 8);
    lemma_enc_le_len(client_id as int, 8);
    lemma_enc_le_len(file_hash as int, 8);
    lemma_chunk_at_concat(
        s,
        0,
        enc_num(7) + enc_num(client_id as u64) + enc_num(file_hash as u64),
        enc_index(chunk_index),
    );
    lemma_chunk_at_concat(s, 0, enc_num(7) + enc_num(client_id as u64), enc_num(file_hash as u64));
    lemma_chunk_at_concat(s, 0, enc_num(7), enc_num(client_id as u64));
    lemma_dec_num_at(s, 0, 7);
    lemma_dec_num_at(s, 8, client_id as u64);
    lemma_dec_num_at(s, 16, file_hash as u64);
    lemma_dec_index_at(s, 24, chunk_index);
}

proof fn lemma_rt_chunk_response(
    file_hash: u16,
    chunk_index: u32,
    total_chunks: u32,
    chunk_data: Seq<u8>,
)
    requires
        chunk_data.len() < pow256(8),
    ensures
        ({
            let m = (MessageTypeView::ChunkResponse {
                file_hash,
                chunk_index,
                total_chunks,
                chunk_data,
            });
            spec_decode_message(spec_encode_message(m)) == Some(m)
        }),
{
    let m = (MessageTypeView::ChunkResponse { file_hash, chunk_index, total_chunks, chunk_data });
    let s = spec_encode_message(m);
    assert(s.subrange(0, s.len() as int) =~= s);
    lemma_pow256_8();
    lemma_enc_le_len(8, 8);
    lemma_enc_le_len(file_hash as int, 8);
    lemma_enc_le_len(chunk_index as int, 8);
    lemma_enc_le_len(total_chunks as int, 8);
    lemma_enc_le_len(chunk_data.len() as int, 8);
    lemma_chunk_at_concat(
        s,
        0,
        enc_num(8) + enc_num(file_hash as u64) + enc_num(chunk_index as u64) + enc_num(
            total_chunks as u64,
        ),
        enc_bytes(chunk_data),
    );
    lemma_chunk_at_concat(
        s,
        0,
        enc_num(8) + enc_num(file_hash as u64) + enc_num(chunk_index as u64),
        enc_num(total_chunks as u64),
    );
    lemma_chunk_at_concat(s, 0, enc_num(8) + enc_num(file_hash as u64), enc_num(chunk_index as u64));
    lemma_chunk_at_concat(s, 0, enc_num(8), enc_num(file_hash as u64));
    lemma_dec_num_at(s, 0, 8);
    lemma_dec_num_at(s, 8, file_hash as u64);
    lemma_dec_num_at(s, 16, chunk_index as u64);
    lemma_dec_num_at(s, 24, total_chunks as u64);
    lemma_dec_bytes_at(s, 32, chunk_data);
    assert(dec_num_at(s, 0) == Some((8u64, 8int)));
    assert(dec_num_at(s, 8) == Some((file_hash as u64, 16int)));
    assert(dec_num_at(s, 16) == Some((chunk_index as u64, 24int)));
    assert(dec_num_at(s, 24) == Some((total_chunks as u64, 32int)));
    assert(dec_bytes_at(s, 32) == Some((chunk_data, 40 + chunk_data.len() as int)));
    assert(s.len() == 40 + chunk_data.len());
    assert(dec_msg_chunk_response(s, 8) == Some(m));
}

/// Decoding a message's wire form yields the message back.
pub proof fn lemma_message_round_trip(m: MessageTypeView)
    requires
        msg_bounded(m),
    ensures
        spec_decode_message(spec_encode_message(m)) == Some(m),
{
    match m {
        MessageTypeView::SubscribeClient { client_id, client_type, file_list } => {
            lemma_rt_subscribe(client_id, client_type, file_list);
        },
        MessageTypeView::UnsubscribeClient { client_id } => {
            lemma_rt_two_nums(2, client_id as u64);
            let s = spec_encode_message(m);
            assert(dec_num_at(s, 0) == Some((2u64, 8int)));
            assert(dec_msg_unsubscribe(s, 8) == Some(m));
        },
        MessageTypeView::RequestFileList { client_id } => {
            lemma_rt_two_nums(3, client_id as u64);
            let s = spec_encode_message(m);
            assert(dec_num_at(s, 0) == Some((3u64, 8int)));
            assert(dec_msg_request_filelist(s, 8) == Some(m));
        },
        MessageTypeView::ResponseFileList { file_list } => {
            lemma_rt_response_filelist(file_list);
        },
        MessageTypeView::RequestPeerList { client_id, file_hash } => {
            lemma_rt_request_peerlist(client_id, file_hash);
        },
        MessageTypeView::ResponsePeerList { file_hash, peers } => {
            lemma_rt_response_peerlist(file_hash, peers);
        },
        MessageTypeView::ChunkRequest { client_id, file_hash, chunk_index } => {
            lemma_rt_chunk_request(client_id, file_hash, chunk_index);
        },
        MessageTypeView::ChunkResponse { file_hash, chunk_index, total_chunks, chunk_data } => {
            lemma_rt_chunk_response(file_hash, chunk_index, total_chunks, chunk_data);
        },
    }
}

/// Appending one entry extends the item encoding on the right.
proof fn lemma_enc_filemeta_items_push(l: Seq<FileMetadataView>, f: FileMetadataView)
    ensures
        enc_filemeta_items(l.push(f)) == enc_filemeta_items(l) + enc_filemeta(f),
    decreases l.len(),
{
    if l.len() == 0 {
        assert(l.push(f).drop_first() =~= Seq::<FileMetadataView>::empty());
        assert(l.push(f)[0] == f);
        assert(l.push(f).len() == 1);
        assert(enc_filemeta_items(l.push(f).drop_first()) == Seq::<u8>::empty());
        assert(enc_filemeta_items(l.push(f)) == enc_filemeta(f) + Seq::<u8>::empty());
        assert(enc_filemeta_items(l) == Seq::<u8>::empty());
        assert(enc_filemeta_items(l.push(f)) =~= enc_filemeta_items(l) + enc_filemeta(f));
    } else {
        assert(l.push(f).drop_first() =~= l.drop_first().push(f));
        lemma_enc_filemeta_items_push(l.drop_first(), f);
        assert(l.push(f)[0] == l[0]);
        assert(enc_filemeta_items(l.push(f)) == enc_filemeta(l[0]) + (enc_filemeta_items(
            l.drop_first(),
        ) + enc_filemeta(f)));
        assert(enc_filemeta_items(l.push(f)) =~= enc_filemeta_items(l) + enc_filemeta(f));
    }
}

proof fn lemma_enc_u32_items_push(l: Seq<u32>, x: u32)
    ensures
        enc_u32_items(l.push(x)) == enc_u32_items(l) + enc_num(x as u64),
    decreases l.len(),
{
    if l.len() == 0 {
        assert(l.push(x).drop_first() =~= Seq::<u32>::empty());
        assert(l.push(x)[0] == x);
        assert(enc_u32_items(l.push(x).drop_first()) == Seq::<u8>::empty());
        assert(enc_u32_items(l.push(x)) == enc_num(x as u64) + Seq::<u8>::empty());
        assert(enc_u32_items(l) == Seq::<u8>::empty());
        assert(enc_u32_items(l.push(x)) =~= enc_u32_items(l) + enc_num(x as u64));
    } else {
        assert(l.push(x).drop_first() =~= l.drop_first().push(x));
        lemma_enc_u32_items_push(l.drop_first(), x);
        assert(l.push(x)[0] == l[0]);
        assert(enc_u32_items(l.push(x)) == enc_num(l[0] as u64) + (enc_u32_items(l.drop_first())
            + enc_num(x as u64)));
        assert(enc_u32_items(l.push(x)) =~= enc_u32_items(l) + enc_num(x as u64));
    }
}

proof fn lemma_enc_peer_items_push(l: Seq<Peer>, p: Peer)
    ensures
        enc_peer_items(l.push(p)) == enc_peer_items(l) + enc_num(p.client_id as u64),
    decreases l.len(),
{
    if l.len() == 0 {
        assert(l.push(p).drop_first() =~= Seq::<Peer>::empty());
        assert(l.push(p)[0] == p);
        assert(enc_peer_items(l.push(p).drop_first()) == Seq::<u8>::empty());
        assert(enc_peer_items(l.push(p)) == enc_num(p.client_id as u64) + Seq::<u8>::empty());
        assert(enc_peer_items(l) == Seq::<u8>::empty());
        assert(enc_peer_items(l.push(p)) =~= enc_peer_items(l) + enc_num(p.client_id as u64));
    } else {
        assert(l.push(p).drop_first() =~= l.drop_first().push(p));
        lemma_enc_peer_items_push(l.drop_first(), p);
        assert(l.push(p)[0] == l[0]);
        assert(enc_peer_items(l.push(p)) == enc_num(l[0].client_id as u64) + (enc_peer_items(
            l.drop_first(),
        ) + enc_num(p.client_id as u64)));
        assert(enc_peer_items(l.push(p)) =~= enc_peer_items(l) + enc_num(p.client_id as u64));
    }
}

/// Append the eight little-endian bytes of `x`.
#[verifier::loop_isolation(false)]
fn write_num(out: &mut Vec<u8>, x: u64)
    ensures
        final(out)@ == old(out)@ + enc_num(x),
{
    let ghost pre = out@;
    let ghost full = enc_le(x as int, 8);
    proof {
        lemma_enc_le_len(x as int, 8);
        assert(full.skip(0) =~= full);
        assert(pre + full.subrange(0, 0) =~= pre);
    }
    let mut v: u64 = x;
    let mut i: usize = 0;
    while i < 8
        invariant
            i <= 8,
            out@ == pre + full.subrange(0, i as int),
            full.skip(i as int) == enc_le(v as int, (8 - i) as nat),
        decreases 8 - i,
    {
        proof {
            assert(full.skip(i as int)[0] == (v % 256) as u8);
            assert(full[i as int] == full.skip(i as int)[0]);
            assert(full.skip(i as int).drop_first() =~= full.skip(i as int + 1));
        }
        out.push((v % 256) as u8);
        proof {
            assert(out@ =~= pre + full.subrange(0, i as int + 1));
        }
        v = v / 256;
        i = i + 1;
    }
    proof {
        assert(full.subrange(0, 8) =~= full);
    }
}

/// Append a length-prefixed byte string.
fn write_bytes(out: &mut Vec<u8>, b: &Vec<u8>)
    ensures
        final(out)@ == old(out)@ + enc_bytes(b@),
{
    let ghost pre = out@;
    write_num(out, b.len() as u64);
    let mut i: usize = 0;
    while i < b.len()
        invariant
            i <= b@.len(),
            out@ == pre + enc_le(b@.len() as int, 8) + b@.subrange(0, i as int),
        decreases b@.len() - i,
    {
        out.push(b[i]);
        proof {
            assert(out@ =~= pre + enc_le(b@.len() as int, 8) + b@.subrange(0, i as int + 1));
        }
        i = i + 1;
    }
    proof {
        assert(b@.subrange(0, b@.len() as int) =~= b@);
        assert(pre + enc_le(b@.len() as int, 8) + b@ =~= pre + enc_bytes(b@));
    }
}

/// Append one catalogue entry.
fn write_filemeta(out: &mut Vec<u8>, f: &FileMetadata)
    ensures
        final(out)@ == old(out)@ + enc_filemeta(f@),
{
    let ghost pre = out@;
    match f {
        FileMetadata::Song(m) => {
            write_num(out, 1);
            write_num(out, m.id as u64);
            write_bytes(out, &m.title);
            write_bytes(out, &m.artist);
            proof {
                assert(out@ =~= pre + enc_filemeta(f@));
            }
        },
        FileMetadata::Video(m) => {
            write_num(out, 2);
            write_num(out, m.id as u64);
            write_bytes(out, &m.title);
            proof {
                assert(out@ =~= pre + enc_filemeta(f@));
            }
        },
    }
}

/// Append a length-prefixed catalogue list.
#[verifier::loop_isolation(false)]
fn write_filelist(out: &mut Vec<u8>, l: &Vec<FileMetadata>)
    ensures
        final(out)@ == old(out)@ + enc_filelist(crate::message::file_list_view(l@)),
{
    let ghost pre = out@;
    let ghost lv = crate::message::file_list_view(l@);
    write_num(out, l.len() as u64);
    proof {
        assert(enc_filemeta_items(lv.subrange(0, 0)) =~= Seq::<u8>::empty());
        assert(out@ =~= pre + enc_le(lv.len() as int, 8) + enc_filemeta_items(lv.subrange(0, 0)));
    }
    let mut i: usize = 0;
    while i < l.len()
        invariant
            i <= l@.len(),
            lv == crate::message::file_list_view(l@),
            out@ == pre + enc_le(lv.len() as int, 8) + enc_filemeta_items(lv.subrange(0, i as int)),
        decreases l@.len() - i,
    {
        write_filemeta(out, &l[i]);
        proof {
            assert(lv.subrange(0, i as int + 1) =~= lv.subrange(0, i as int).push(lv[i as int]));
            lemma_enc_filemeta_items_push(lv.subrange(0, i as int), lv[i as int]);
            assert(out@ =~= pre + enc_le(lv.len() as int, 8) + enc_filemeta_items(
                lv.subrange(0, i as int + 1),
            ));
        }
        i = i + 1;
    }
    proof {
        assert(lv.subrange(0, lv.len() as int) =~= lv);
    }
}

/// Serialize one message to its wire form.
#[verifier::loop_isolation(false)]
pub fn encode_message(m: &MessageType) -> (r: Vec<u8>)
    ensures
        r@ == spec_encode_message(m@),
{
    let mut out: Vec<u8> = Vec::new();
    let ghost pre = out@;
    proof {
        assert(pre =~= Seq::<u8>::empty());
    }
    match m {
        MessageType::SubscribeClient(sc) => {
            write_num(&mut out, 1);
            write_num(&mut out, sc.client_id as u64);
            match sc.client_type {
                ClientType::Song => write_num(&mut out, 1),
                ClientType::Video => write_num(&mut out, 2),
            }
            write_filelist(&mut out, &sc.file_list);
            proof {
                assert(out@ =~= spec_encode_message(m@));
            }
        },
        MessageType::UnsubscribeClient(u) => {
            write_num(&mut out, 2);
            write_num(&mut out, u.client_id as u64);
            proof {
                assert(out@ =~= spec_encode_message(m@));
            }
        },
        MessageType::RequestFileList(rq) => {
            write_num(&mut out, 3);
            write_num(&mut out, rq.client_id as u64);
            proof {
                assert(out@ =~= spec_encode_message(m@));
            }
        },
        MessageType::ResponseFileList(rs) => {
            write_num(&mut out, 4);
            write_filelist(&mut out, &rs.file_list);
            proof {
                assert(out@ =~= spec_encode_message(m@));
            }
        },
        MessageType::RequestPeerList(rq) => {
            write_num(&mut out, 5);
            write_num(&mut out, rq.client_id as u64);
            write_num(&mut out, rq.file_hash as u64);
            proof {
                assert(out@ =~= spec_encode_message(m@));
            }
        },
        MessageType::ResponsePeerList(rs) => {
            write_num(&mut out, 6);
            write_num(&mut out, rs.file_hash as u64);
            write_num(&mut out, rs.peers.len() as u64);
            let ghost pv = rs.peers@;
            let ghost mid = out@;
            proof {
                assert(enc_peer_items(pv.subrange(0, 0)) =~= Seq::<u8>::empty());
                assert(out@ =~= mid + enc_peer_items(pv.subrange(0, 0)));
            }
            let mut i: usize = 0;
            while i < rs.peers.len()
                invariant
                    i <= pv.len(),
                    rs.peers@ == pv,
                    out@ == mid + enc_peer_items(pv.subrange(0, i as int)),
                decreases pv.len() - i,
            {
                write_num(&mut out, rs.peers[i].client_id as u64);
                proof {
                    assert(pv.subrange(0, i as int + 1) =~= pv.subrange(0, i as int).push(
                        pv[i as int],
                    ));
                    lemma_enc_peer_items_push(pv.subrange(0, i as int), pv[i as int]);
                    assert(out@ =~= mid + enc_peer_items(pv.subrange(0, i as int + 1)));
                }
                i = i + 1;
            }
            proof {
                assert(pv.subrange(0, pv.len() as int) =~= pv);
                assert(out@ =~= spec_encode_message(m@));
            }
        },
        MessageType::ChunkRequest(cr) => {
            write_num(&mut out, 7);
            write_num(&mut out, cr.client_id as u64);
            write_num(&mut out, cr.file_hash as u64);
            match &cr.chunk_index {
                Index::All => {
                    write_num(&mut out, 0);
                    proof {
                        assert(out@ =~= spec_encode_message(m@));
                    }
                },
                Index::Indexes(xs) => {
                    write_num(&mut out, 1);
                    write_num(&mut out, xs.len() as u64);
                    let ghost xv = xs@;
                    let ghost mid = out@;
                    proof {
                        assert(enc_u32_items(xv.subrange(0, 0)) =~= Seq::<u8>::empty());
                        assert(out@ =~= mid + enc_u32_items(xv.subrange(0, 0)));
                    }
                    let mut i: usize = 0;
                    while i < xs.len()
                        invariant
                            i <= xv.len(),
                            xs@ == xv,
                            out@ == mid + enc_u32_items(xv.subrange(0, i as int)),
                        decreases xv.len() - i,
                    {
                        write_num(&mut out, xs[i] as u64);
                        proof {
                            assert(xv.subrange(0, i as int + 1) =~= xv.subrange(0, i as int).push(
                                xv[i as int],
                            ));
                            lemma_enc_u32_items_push(xv.subrange(0, i as int), xv[i as int]);
                            assert(out@ =~= mid + enc_u32_items(xv.subrange(0, i as int + 1)));
                        }
                        i = i + 1;
                    }
                    proof {
                        assert(xv.subrange(0, xv.len() as int) =~= xv);
                        assert(out@ =~= spec_encode_message(m@));
                    }
                },
            }
        },
        MessageType::ChunkResponse(cr) => {
            write_num(&mut out, 8);
            write_num(&mut out, cr.file_hash as u64);
            write_num(&mut out, cr.chunk_index as u64);
            write_num(&mut out, cr.total_chunks as u64);
            write_bytes(&mut out, &cr.chunk_data);
            proof {
                assert(out@ =~= spec_encode_message(m@));
            }
        },
    }
    out
}

/// A decode position paired with its mathematical form.
pub open spec fn num_result(r: Option<(u64, usize)>) -> Option<(u64, int)> {
    match r {
        Some((v, p)) => Some((v, p as int)),
        None => None,
    }
}

/// Read one eight-byte scalar.
#[verifier::loop_isolation(false)]
fn read_num(bytes: &Vec<u8>, pos: usize) -> (r: Option<(u64, usize)>)
    ensures
        num_result(r) == dec_num_at(bytes@, pos as int),
{
    if bytes.len() < 8 || pos > bytes.len() - 8 {
        return None;
    }
    let ghost s = bytes@.subrange(pos as int, pos as int + 8);
    let mut acc: u64 = 0;
    let mut i: usize = 8;
    proof {
        reveal_with_fuel(pow256, 9);
        assert(s.skip(8) =~= Seq::<u8>::empty());
    }
    while i > 0
        invariant
            i <= 8,
            pos + 8 <= bytes@.len(),
            s == bytes@.subrange(pos as int, pos as int + 8),
            acc as int == dec_le(s.skip(i as int)),
        decreases i,
    {
        proof {
            reveal_with_fuel(pow256, 9);
            lemma_dec_le_bound(s.skip(i as int));
            assert(s.skip(i as int).len() == 8 - i);
            assert(s.skip(i as int - 1)[0] == s[i as int - 1]);
            assert(s.skip(i as int - 1).drop_first() =~= s.skip(i as int));
            assert(s[i as int - 1] == bytes@[pos + i - 1]);
        }
        i = i - 1;
        acc = (bytes[pos + i] as u64) + 256 * acc;
    }
    proof {
        assert(s.skip(0) =~= s);
        lemma_dec_le_bound(s);
        reveal_with_fuel(pow256, 9);
    }
    Some((acc, pos + 8))
}

/// Copy `bytes[from..to]` into a fresh vector.
#[verifier::loop_isolation(false)]
fn copy_range(bytes: &Vec<u8>, from: usize, to: usize) -> (r: Vec<u8>)
    requires
        from <= to <= bytes@.len(),
    ensures
        r@ == bytes@.subrange(from as int, to as int),
{
    let mut out: Vec<u8> = Vec::new();
    let mut i: usize = from;
    while i < to
        invariant
            from <= i <= to,
            to <= bytes@.len(),
            out@ == bytes@.subrange(from as int, i as int),
        decreases to - i,
    {
        out.push(bytes[i]);
        proof {
            assert(out@ =~= bytes@.subrange(from as int, i as int + 1));
        }
        i = i + 1;
    }
    out
}

/// Read one length-prefixed byte string.
pub open spec fn bytes_result(r: Option<(Vec<u8>, usize)>) -> Option<(Seq<u8>, int)> {
    match r {
        Some((v, p)) => Some((v@, p as int)),
        None => None,
    }
}

fn read_bytes(bytes: &Vec<u8>, pos: usize) -> (r: Option<(Vec<u8>, usize)>)
    ensures
        bytes_result(r) == dec_bytes_at(bytes@, pos as int),
{
    match read_num(bytes, pos) {
        Some((n, p)) => {
            if n <= (bytes.len() - p) as u64 {
                let to = p + (n as usize);
                Some((copy_range(bytes, p, to), to))
            } else {
                None
            }
        },
        None => None,
    }
}

/// Read one catalogue entry.
pub open spec fn filemeta_result(r: Option<(FileMetadata, usize)>) -> Option<
    (FileMetadataView, int),
> {
    match r {
        Some((f, p)) => Some((f@, p as int)),
        None => None,
    }
}

fn read_filemeta(bytes: &Vec<u8>, pos: usize) -> (r: Option<(FileMetadata, usize)>)
    ensures
        filemeta_result(r) == dec_filemeta_at(bytes@, pos as int),
{
    match read_num(bytes, pos) {
        Some((tag, p0)) => {
            if tag == 1 {
                match read_num(bytes, p0) {
                    Some((id, p1)) => {
                        if id <= 0xFFFF {
                            match read_bytes(bytes, p1) {
                                Some((title, p2)) => match read_bytes(bytes, p2) {
                                    Some((artist, p3)) => Some(
                                        (
                                            FileMetadata::Song(
                                                crate::message::SongMetaData {
                                                    id: id as u16,
                                                    title,
                                                    artist,
                                                },
                                            ),
                                            p3,
                                        ),
                                    ),
                                    None => None,
                                },
                                None => None,
                            }
                        } else {
                            None
                        }
                    },
                    None => None,
                }
            } else if tag == 2 {
                match read_num(bytes, p0) {
                    Some((id, p1)) => {
                        if id <= 0xFFFF {
                            match read_bytes(bytes, p1) {
                                Some((title, p2)) => Some(
                                    (
                                        FileMetadata::Video(
                                            crate::message::VideoMetaData { id: id as u16, title },
                                        ),
                                        p2,
                                    ),
                                ),
                                None => None,
                            }
                        } else {
                            None
                        }
                    },
                    None => None,
                }
            } else {
                None
            }
        },
        None => None,
    }
}

/// Read `n` catalogue entries.
pub open spec fn filelist_result(r: Option<(Vec<FileMetadata>, usize)>) -> Option<
    (Seq<FileMetadataView>, int),
> {
    match r {
        Some((l, p)) => Some((crate::message::file_list_view(l@), p as int)),
        None => None,
    }
}

#[verifier::loop_isolation(false)]
fn read_filemeta_list(bytes: &Vec<u8>, pos: usize, n: u64) -> (r: Option<(Vec<FileMetadata>, usize)>)
    ensures
        filelist_result(r) == dec_filemeta_items(bytes@, pos as int, n as nat),
{
    let mut out: Vec<FileMetadata> = Vec::new();
    let mut cur: usize = pos;
    let mut j: u64 = 0;
    proof {
        assert(crate::message::file_list_view(out@) =~= Seq::<FileMetadataView>::empty());
    }
    while j < n
        invariant
            j <= n,
            out@.len() == j,
            ({
                let full = dec_filemeta_items(bytes@, pos as int, n as nat);
                let rest = dec_filemeta_items(bytes@, cur as int, (n - j) as nat);
                match rest {
                    Some((l, end)) => full == Some(
                        (crate::message::file_list_view(out@) + l, end),
                    ),
                    None => full is None,
                }
            }),
        decreases n - j,
    {
        match read_filemeta(bytes, cur) {
            Some((f, p)) => {
                let ghost pre = out@;
                out.push(f);
                proof {
                    assert(crate::message::file_list_view(out@) =~= crate::message::file_list_view(
                        pre,
                    ).push(f@));
                    match dec_filemeta_items(bytes@, p as int, (n - j - 1) as nat) {
                        Some((l2, end)) => {
                            assert(crate::message::file_list_view(pre) + (seq![f@] + l2)
                                =~= crate::message::file_list_view(pre).push(f@) + l2);
                        },
                        None => {},
                    }
                }
                cur = p;
            },
            None => {
                return None;
            },
        }
        j = j + 1;
    }
    proof {
        assert(crate::message::file_list_view(out@) + Seq::<FileMetadataView>::empty()
            =~= crate::message::file_list_view(out@));
    }
    Some((out, cur))
}

/// Read `n` segment indices.
#[verifier::loop_isolation(false)]
fn read_u32_list(bytes: &Vec<u8>, pos: usize, n: u64) -> (r: Option<(Vec<u32>, usize)>)
    ensures
        ({
            let d = dec_u32_items(bytes@, pos as int, n as nat);
            match r {
                Some((l, p)) => d == Some((l@, p as int)),
                None => d is None,
            }
        }),
{
    let mut out: Vec<u32> = Vec::new();
    let mut cur: usize = pos;
    let mut j: u64 = 0;
    while j < n
        invariant
            j <= n,
            out@.len() == j,
            ({
                let full = dec_u32_items(bytes@, pos as int, n as nat);
                let rest = dec_u32_items(bytes@, cur as int, (n - j) as nat);
                match rest {
                    Some((l, end)) => full == Some((out@ + l, end)),
                    None => full is None,
                }
            }),
        decreases n - j,
    {
        match read_num(bytes, cur) {
            Some((x, p)) => {
                if x <= u32::MAX as u64 {
                    let ghost pre = out@;
                    out.push(x as u32);
                    proof {
                        match dec_u32_items(bytes@, p as int, (n - j - 1) as nat) {
                            Some((l2, end)) => {
                                assert(pre + (seq![x as u32] + l2) =~= pre.push(x as u32) + l2);
                            },
                            None => {},
                        }
                    }
                    cur = p;
                } else {
                    return None;
                }
            },
            None => {
                return None;
            },
        }
        j = j + 1;
    }
    proof {
        assert(out@ + Seq::<u32>::empty() =~= out@);
    }
    Some((out, cur))
}

/// Read `n` peers.
#[verifier::loop_isolation(false)]
fn read_peer_list(bytes: &Vec<u8>, pos: usize, n: u64) -> (r: Option<(Vec<Peer>, usize)>)
    ensures
        ({
            let d = dec_peer_items(bytes@, pos as int, n as nat);
            match r {
                Some((l, p)) => d == Some((l@, p as int)),
                None => d is None,
            }
        }),
{
    let mut out: Vec<Peer> = Vec::new();
    let mut cur: usize = pos;
    let mut j: u64 = 0;
    while j < n
        invariant
            j <= n,
            out@.len() == j,
            ({
                let full = dec_peer_items(bytes@, pos as int, n as nat);
                let rest = dec_peer_items(bytes@, cur as int, (n - j) as nat);
                match rest {
                    Some((l, end)) => full == Some((out@ + l, end)),
                    None => full is None,
                }
            }),
        decreases n - j,
    {
        match read_num(bytes, cur) {
            Some((x, p)) => {
                if x <= 0xFF {
                    let ghost pre = out@;
                    out.push(Peer { client_id: x as u8 });
                    proof {
                        match dec_peer_items(bytes@, p as int, (n - j - 1) as nat) {
                            Some((l2, end)) => {
                                assert(pre + (seq![(Peer { client_id: x as u8 })] + l2)
                                    =~= pre.push((Peer { client_id: x as u8 })) + l2);
                            },
                            None => {},
                        }
                    }
                    cur = p;
                } else {
                    return None;
                }
            },
            None => {
                return None;
            },
        }
        j = j + 1;
    }
    proof {
        assert(out@ + Seq::<Peer>::empty() =~= out@);
    }
    Some((out, cur))
}

/// Why a byte string or a fragment set does not decode to a message.
#[derive(Clone, Copy, Debug, PartialEq, Eq, Structural)]
pub enum CodecError {
    /// The bytes are not the wire form of any message.
    Malformed,
    /// The fragment set is not one whole message's worth of fragments.
    BadFragments,
}

/// Deserialize one message from its wire form.  Exactly the byte strings
/// that [`encode_message`] produces are accepted.
pub fn decode_message(bytes: &Vec<u8>) -> (r: Result<MessageType, CodecError>)
    ensures
        r is Ok <==> spec_decode_message(bytes@) is Some,
        r matches Ok(m) ==> Some(m@) == spec_decode_message(bytes@),
{
    match read_num(bytes, 0) {
        None => Err(CodecError::Malformed),
        Some((tag, p0)) => {
            if tag == 1 {
                match read_num(bytes, p0) {
                    Some((cid, p1)) => {
                        if cid <= 0xFF {
                            let ct = match read_num(bytes, p1) {
                                Some((t, p2)) => {
                                    if t == 1 {
                                        Some((ClientType::Song, p2))
                                    } else if t == 2 {
                                        Some((ClientType::Video, p2))
                                    } else {
                                        None
                                    }
                                },
                                None => None,
                            };
                            match ct {
                                Some((ctv, p2)) => match read_num(bytes, p2) {
                                    Some((n, p3)) => match read_filemeta_list(bytes, p3, n) {
                                        Some((l, end)) => {
                                            if end == bytes.len() {
                                                Ok(
                                                    MessageType::SubscribeClient(
                                                        crate::message::SubscribeClient {
                                                            client_id: cid as u8,
                                                            client_type: ctv,
                                                            file_list: l,
                                                        },
                                                    ),
                                                )
                                            } else {
                                                Err(CodecError::Malformed)
                                            }
                                        },
                                        None => Err(CodecError::Malformed),
                                    },
                                    None => Err(CodecError::Malformed),
                                },
                                None => Err(CodecError::Malformed),
                            }
                        } else {
                            Err(CodecError::Malformed)
                        }
                    },
                    None => Err(CodecError::Malformed),
                }
            } else if tag == 2 {
                match read_num(bytes, p0) {
                    Some((cid, p1)) => {
                        if cid <= 0xFF && p1 == bytes.len() {
                            Ok(
                                MessageType::UnsubscribeClient(
                                    crate::message::UnsubscribeClient { client_id: cid as u8 },
                                ),
                            )
                        } else {
                            Err(CodecError::Malformed)
                        }
                    },
                    None => Err(CodecError::Malformed),
                }
            } else if tag == 3 {
                match read_num(bytes, p0) {
                    Some((cid, p1)) => {
                        if cid <= 0xFF && p1 == bytes.len() {
                            Ok(
                                MessageType::RequestFileList(
                                    crate::message::RequestFileList { client_id: cid as u8 },
                                ),
                            )
                        } else {
                            Err(CodecError::Malformed)
                        }
                    },
                    None => Err(CodecError::Malformed),
                }
            } else if tag == 4 {
                match read_num(bytes, p0) {
                    Some((n, p1)) => match read_filemeta_list(bytes, p1, n) {
                        Some((l, end)) => {
                            if end == bytes.len() {
                                Ok(
                                    MessageType::ResponseFileList(
                                        crate::message::ResponseFileList { file_list: l },
                                    ),
                                )
                            } else {
                                Err(CodecError::Malformed)
                            }
                        },
                        None => Err(CodecError::Malformed),
                    },
                    None => Err(CodecError::Malformed),
                }
            } else if tag == 5 {
                match read_num(bytes, p0) {
                    Some((cid, p1)) => {
                        if cid <= 0xFF {
                            match read_num(bytes, p1) {
                                Some((fh, p2)) => {
                                    if fh <= 0xFFFF && p2 == bytes.len() {
                                        Ok(
                                            MessageType::RequestPeerList(
                                                crate::message::RequestPeerList {
                                                    client_id: cid as u8,
                                                    file_hash: fh as u16,
                                                },
                                            ),
                                        )
                                    } else {
                                        Err(CodecError::Malformed)
                                    }
                                },
                                None => Err(CodecError::Malformed),
                            }
                        } else {
                            Err(CodecError::Malformed)
                        }
                    },
                    None => Err(CodecError::Malformed),
                }
            } else if tag == 6 {
                match read_num(bytes, p0) {
                    Some((fh, p1)) => {
                        if fh <= 0xFFFF {
                            match read_num(bytes, p1) {
                                Some((n, p2)) => match read_peer_list(bytes, p2, n) {
                                    Some((l, end)) => {
                                        if end == bytes.len() {
                                            Ok(
                                                MessageType::ResponsePeerList(
                                                    crate::message::ResponsePeerList {
                                                        file_hash: fh as u16,
                                                        peers: l,
                                                    },
                                                ),
                                            )
                                        } else {
                                            Err(CodecError::Malformed)
                                        }
                                    },
                                    None => Err(CodecError::Malformed),
                                },
                                None => Err(CodecError::Malformed),
                            }
                        } else {
                            Err(CodecError::Malformed)
                        }
                    },
                    None => Err(CodecError::Malformed),
                }
            } else if tag == 7 {
                match read_num(bytes, p0) {
                    Some((cid, p1)) => {
                        if cid <= 0xFF {
                            match read_num(bytes, p1) {
                                Some((fh, p2)) => {
                                    if fh <= 0xFFFF {
                                        match read_num(bytes, p2) {
                                            Some((itag, p3)) => {
                                                if itag == 0 {
                                                    if p3 == bytes.len() {
                                                        Ok(
                                                            MessageType::ChunkRequest(
                                                                crate::message::ChunkRequest {
                                                                    client_id: cid as u8,
                                                                    file_hash: fh as u16,
                                                                    chunk_index: Index::All,
                                                                },
                                                            ),
                                                        )
                                                    } else {
                                                        Err(CodecError::Malformed)
                                                    }
                                                } else if itag == 1 {
                                                    match read_num(bytes, p3) {
                                                        Some((n, p4)) => match read_u32_list(
                                                            bytes,
                                                            p4,
                                                            n,
                                                        ) {
                                                            Some((l, end)) => {
                                                                if end == bytes.len() {
                                                                    Ok(
                                                                        MessageType::ChunkRequest(
                                                                            crate::message::ChunkRequest {
                                                                                client_id: cid as u8,
                                                                                file_hash: fh as u16,
                                                                                chunk_index: Index::Indexes(l),
                                                                            },
                                                                        ),
                                                                    )
                                                                } else {
                                                                    Err(CodecError::Malformed)
                                                                }
                                                            },
                                                            None => Err(CodecError::Malformed),
                                                        },
                                                        None => Err(CodecError::Malformed),
                                                    }
                                                } else {
                                                    Err(CodecError::Malformed)
                                                }
                                            },
                                            None => Err(CodecError::Malformed),
                                        }
                                    } else {
                                        Err(CodecError::Malformed)
                                    }
                                },
                                None => Err(CodecError::Malformed),
                            }
                        } else {
                            Err(CodecError::Malformed)
                        }
                    },
                    None => Err(CodecError::Malformed),
                }
            } else if tag == 8 {
                match read_num(bytes, p0) {
                    Some((fh, p1)) => {
                        if fh <= 0xFFFF {
                            match read_num(bytes, p1) {
                                Some((ci, p2)) => {
                                    if ci <= u32::MAX as u64 {
                                        match read_num(bytes, p2) {
                                            Some((tc, p3)) => {
                                                if tc <= u32::MAX as u64 {
                                                    match read_bytes(bytes, p3) {
                                                        Some((b, end)) => {
                                                            if end == bytes.len() {
                                                                Ok(
                                                                    MessageType::ChunkResponse(
                                                                        crate::message::ChunkResponse {
                                                                            file_hash: fh as u16,
                                                                            chunk_index: ci as u32,
                                                                            total_chunks: tc as u32,
                                                                            chunk_data: b,
                                                                        },
                                                                    ),
                                                                )
                                                            } else {
                                                                Err(CodecError::Malformed)
                                                            }
                                                        },
                                                        None => Err(CodecError::Malformed),
                                                    }
                                                } else {
                                                    Err(CodecError::Malformed)
                                                }
                                            },
                                            None => Err(CodecError::Malformed),
                                        }
                                    } else {
                                        Err(CodecError::Malformed)
                                    }
                                },
                                None => Err(CodecError::Malformed),
                            }
                        } else {
                            Err(CodecError::Malformed)
                        }
                    },
                    None => Err(CodecError::Malformed),
                }
            } else {
                Err(CodecError::Malformed)
            }
        },
    }
}

/// The size of one fragment's payload.
pub const FRAGMENT_DSIZE: usize = 128;

/// How many fragments a message of `len` bytes is split into; an empty
/// message still travels as one empty fragment.
pub open spec fn frag_count(len: nat) -> nat {
    if len == 0 {
        1
    } else {
        (((len - 1) / 128) + 1) as nat
    }
}

/// The bytes of the fragment with index `i`.
pub open spec fn spec_chunk(bytes: Seq<u8>, i: int) -> Seq<u8> {
    if 128 * (i + 1) <= bytes.len() {
        bytes.subrange(128 * i, 128 * (i + 1))
    } else {
        bytes.subrange(128 * i, bytes.len() as int)
    }
}

/// The fragments of a byte string, in index order.
pub open spec fn spec_fragments(bytes: Seq<u8>) -> Seq<FragmentView> {
    Seq::new(
        frag_count(bytes.len()),
        |i: int| FragmentView {
            fragment_index: i as u64,
            total_n_fragments: frag_count(bytes.len()) as u64,
            data: spec_chunk(bytes, i),
        },
    )
}

/// The packets that carry a byte string along a route in one session.
pub open spec fn spec_disassemble(bytes: Seq<u8>, srh: crate::packet::SrhView, session_id: u64)
    -> Seq<PacketView> {
    spec_fragments(bytes).map_values(
        |f: FragmentView| PacketView {
            routing_header: srh,
            session_id,
            pack_type: PacketTypeView::MsgFragment(f),
        },
    )
}

/// A fragment set that is exactly one message's worth: at least one
/// fragment, every total equal to the count, every index in range, and no
/// index twice.
pub open spec fn frags_valid(fs: Seq<FragmentView>) -> bool {
    &&& 0 < fs.len()
    &&& forall|i: int| 0 <= i < fs.len() ==> (#[trigger] fs[i]).total_n_fragments == fs.len() as u64
    &&& forall|i: int| 0 <= i < fs.len() ==> (#[trigger] fs[i]).fragment_index < fs.len() as u64
    &&& forall|i: int, j: int| 0 <= i < j < fs.len() ==> (#[trigger] fs[i]).fragment_index != (
    #[trigger] fs[j]).fragment_index
}

/// Whether some fragment carries index `ix`.
pub open spec fn has_index(fs: Seq<FragmentView>, ix: int) -> bool {
    exists|j: int| 0 <= j < fs.len() && (#[trigger] fs[j]).fragment_index == ix as u64
}

/// Every index up to the count is present.
pub open spec fn frags_complete(fs: Seq<FragmentView>) -> bool {
    forall|ix: int| 0 <= ix < fs.len() ==> has_index(fs, ix)
}

/// The payload of the fragment with index `ix` (empty if none carries it).
pub open spec fn data_at(fs: Seq<FragmentView>, ix: int) -> Seq<u8> {
    if has_index(fs, ix) {
        fs[choose|j: int| 0 <= j < fs.len() && (#[trigger] fs[j]).fragment_index == ix as u64].data
    } else {
        Seq::<u8>::empty()
    }
}

/// The payloads of the fragments with indices below `k`, in index order.
pub open spec fn concat_data(fs: Seq<FragmentView>, k: int) -> Seq<u8>
    decreases k,
{
    if k <= 0 {
        Seq::<u8>::empty()
    } else {
        concat_data(fs, k - 1) + data_at(fs, k - 1)
    }
}

/// The reassembled byte string of a fragment set.
pub open spec fn spec_assembled_bytes(fs: Seq<FragmentView>) -> Seq<u8> {
    concat_data(fs, fs.len() as int)
}

/// The message a fragment set reassembles to, if it is one message's worth
/// of fragments whose bytes decode.
pub open spec fn spec_assemble(fs: Seq<FragmentView>) -> Option<MessageTypeView> {
    if frags_valid(fs) && frags_complete(fs) {
        spec_decode_message(spec_assembled_bytes(fs))
    } else {
        None
    }
}

/// Append a copy of `src` to `out`.
fn append_bytes(out: &mut Vec<u8>, src: &Vec<u8>)
    ensures
        final(out)@ == old(out)@ + src@,
{
    let ghost pre = out@;
    let mut i: usize = 0;
    while i < src.len()
        invariant
            i <= src@.len(),
            out@ == pre + src@.subrange(0, i as int),
        decreases src@.len() - i,
    {
        out.push(src[i]);
        proof {
            assert(out@ =~= pre + src@.subrange(0, i as int + 1));
        }
        i = i + 1;
    }
    proof {
        assert(src@.subrange(0, src@.len() as int) =~= src@);
    }
}

/// The session-id allocator and message codec: splits application messages
/// into routed fragment packets and reassembles received fragment sets.
#[derive(Debug)]
pub struct PacketForge {
    session_counter: u64,
}

impl PacketForge {
    /// The session id the next allocation returns.
    pub closed spec fn spec_next_session(&self) -> u64 {
        self.session_counter
    }

    pub fn new() -> (r: Self)
        ensures
            r.spec_next_session() == 0,
    {
        PacketForge { session_counter: 0 }
    }

    /// Whether another session id can still be allocated.
    pub fn has_session(&self) -> (r: bool)
        ensures
            r == (self.spec_next_session() < u64::MAX),
    {
        self.session_counter < u64::MAX
    }

    /// Allocate a fresh session id; each is handed out once.
    pub fn get_session_id(&mut self) -> (r: u64)
        requires
            old(self).spec_next_session() < u64::MAX,
        ensures
            r == old(self).spec_next_session(),
            final(self).spec_next_session() == r + 1,
    {
        let r = self.session_counter;
        self.session_counter = self.session_counter + 1;
        r
    }

    /// Split one message into fragment packets along the given route, under
    /// a freshly allocated session id.
    #[verifier::loop_isolation(false)]
    pub fn disassemble(&mut self, message: &MessageType, srh: &SourceRoutingHeader) -> (r: Vec<
        Packet,
    >)
        requires
            old(self).spec_next_session() < u64::MAX,
        ensures
            final(self).spec_next_session() == old(self).spec_next_session() + 1,
            r@.map_values(|p: Packet| p@) == spec_disassemble(
                spec_encode_message(message@),
                srh@,
                old(self).spec_next_session(),
            ),
    {
        let session_id = self.get_session_id();
        let bytes = encode_message(message);
        let len = bytes.len();
        let count: usize = if len == 0 {
            1
        } else {
            (len - 1) / 128 + 1
        };
        let ghost target = spec_disassemble(spec_encode_message(message@), srh@, session_id);
        proof {
            assert(128 * ((len - 1) as int / 128) <= len - 1) by (nonlinear_arith)
                requires
                    len >= 1,
            {}
            assert(target.len() == count);
        }
        let mut out: Vec<Packet> = Vec::new();
        let mut i: usize = 0;
        while i < count
            invariant
                i <= count,
                out@.len() == i,
                forall|j: int| 0 <= j < i ==> (#[trigger] out@[j])@ == target[j],
            decreases count - i,
        {
            proof {
                if len > 0 {
                    assert(128 * (i as int) <= 128 * ((len - 1) as int / 128)) by (nonlinear_arith)
                        requires
                            i as int <= (len - 1) as int / 128,
                    {}
                }
            }
            let start: usize = i * 128;
            let end: usize = if len - start >= 128 {
                start + 128
            } else {
                len
            };
            let data = copy_range(&bytes, start, end);
            proof {
                assert(data@ == spec_chunk(bytes@, i as int));
            }
            let fragment = Fragment {
                fragment_index: i as u64,
                total_n_fragments: count as u64,
                data,
            };
            out.push(Packet::new_fragment(srh.dup(), session_id, fragment));
            i = i + 1;
        }
        proof {
            assert(out@.map_values(|p: Packet| p@) =~= target);
        }
        out
    }

    /// Reassemble one message from a fragment set: exactly the sets that
    /// are one whole message's worth of fragments, in any order, yield the
    /// message.
    #[verifier::loop_isolation(false)]
    pub fn assemble_dynamic(&self, fragments: &Vec<Fragment>) -> (r: Result<
        MessageType,
        CodecError,
    >)
        ensures
            ({
                let fs = fragments@.map_values(|f: Fragment| f@);
                &&& (r is Ok <==> spec_assemble(fs) is Some)
                &&& (r matches Ok(m) ==> Some(m@) == spec_assemble(fs))
            }),
    {
        let ghost fs = fragments@.map_values(|f: Fragment| f@);
        let n = fragments.len();
        if n == 0 {
            return Err(CodecError::BadFragments);
        }
        let mut slots: Vec<Option<Vec<u8>>> = Vec::new();
        let mut k: usize = 0;
        while k < n
            invariant
                k <= n,
                slots@.len() == k,
                forall|t: int| 0 <= t < k ==> (#[trigger] slots@[t]) is None,
            decreases n - k,
        {
            slots.push(None);
            k = k + 1;
        }
        let mut j: usize = 0;
        while j < n
            invariant
                j <= n,
                n == fs.len(),
                fs == fragments@.map_values(|f: Fragment| f@),
                slots@.len() == n,
                forall|t: int| 0 <= t < j ==> (#[trigger] fs[t]).total_n_fragments == n as u64,
                forall|t: int| 0 <= t < j ==> (#[trigger] fs[t]).fragment_index < n as u64,
                forall|a: int, b: int| 0 <= a < b < j ==> (#[trigger] fs[a]).fragment_index != (
                #[trigger] fs[b]).fragment_index,
                forall|k2: int| 0 <= k2 < n ==> match #[trigger] slots@[k2] {
                    Some(d) => exists|t: int| 0 <= t < j && (#[trigger] fs[t]).fragment_index
                        == k2 as u64 && d@ == fs[t].data,
                    None => forall|t: int| 0 <= t < j ==> (#[trigger] fs[t]).fragment_index
                        != k2 as u64,
                },
            decreases n - j,
        {
            proof {
                assert(fs[j as int] == fragments@[j as int]@);
            }
            if fragments[j].total_n_fragments != n as u64 {
                return Err(CodecError::BadFragments);
            }
            let ix = fragments[j].fragment_index;
            if ix >= n as u64 {
                return Err(CodecError::BadFragments);
            }
            let ixs = ix as usize;
            if slots[ixs].is_some() {
                return Err(CodecError::BadFragments);
            }
            let data = copy_vec(&fragments[j].data);
            let ghost pre_slots = slots@;
            slots.set(ixs, Some(data));
            proof {
                assert forall|k2: int| 0 <= k2 < n implies match #[trigger] slots@[k2] {
                    Some(d) => exists|t: int| 0 <= t < j + 1 && (#[trigger] fs[t]).fragment_index
                        == k2 as u64 && d@ == fs[t].data,
                    None => forall|t: int| 0 <= t < j + 1 ==> (#[trigger] fs[t]).fragment_index
                        != k2 as u64,
                } by {
                    if k2 == ixs as int {
                        assert(slots@[k2] matches Some(d) && d@ == fs[j as int].data);
                    } else {
                        assert(slots@[k2] == pre_slots[k2]);
                    }
                }
            }
            j = j + 1;
        }
        let mut bytes: Vec<u8> = Vec::new();
        let mut k: usize = 0;
        proof {
            assert(bytes@ =~= concat_data(fs, 0));
        }
        while k < n
            invariant
                k <= n,
                n == fs.len(),
                fs == fragments@.map_values(|f: Fragment| f@),
                slots@.len() == n,
                forall|k2: int| 0 <= k2 < k ==> (#[trigger] slots@[k2]) is Some,
                bytes@ == concat_data(fs, k as int),
                forall|a: int, b: int| 0 <= a < b < n ==> (#[trigger] fs[a]).fragment_index != (
                #[trigger] fs[b]).fragment_index,
                forall|k2: int| 0 <= k2 < n ==> match #[trigger] slots@[k2] {
                    Some(d) => exists|t: int| 0 <= t < n && (#[trigger] fs[t]).fragment_index
                        == k2 as u64 && d@ == fs[t].data,
                    None => forall|t: int| 0 <= t < n ==> (#[trigger] fs[t]).fragment_index
                        != k2 as u64,
                },
            decreases n - k,
        {
            match &slots[k] {
                Some(d) => {
                    proof {
                        let t = choose|t: int| 0 <= t < n && (#[trigger] fs[t]).fragment_index
                            == k as u64 && d@ == fs[t].data;
                        assert(has_index(fs, k as int));
                        let t2 = choose|j2: int| 0 <= j2 < fs.len() && (
                        #[trigger] fs[j2]).fragment_index == (k as int) as u64;
                        if t < t2 {
                            assert(fs[t].fragment_index != fs[t2].fragment_index);
                        }
                        if t2 < t {
                            assert(fs[t2].fragment_index != fs[t].fragment_index);
                        }
                        assert(data_at(fs, k as int) == d@);
                    }
                    append_bytes(&mut bytes, d);
                },
                None => {
                    proof {
                        assert(!has_index(fs, k as int));
                    }
                    return Err(CodecError::BadFragments);
                },
            }
            k = k + 1;
        }
        proof {
            assert(bytes@ == spec_assembled_bytes(fs));
            assert(frags_complete(fs)) by {
                assert forall|ix: int| 0 <= ix < fs.len() implies has_index(fs, ix) by {
                    assert(slots@[ix] is Some);
                }
            }
        }
        match decode_message(&bytes) {
            Ok(m) => Ok(m),
            Err(_) => Err(CodecError::Malformed),
        }
    }
}

} // verus!
