//! Application-level messages exchanged end-to-end after reassembly:
//! subscribe/unsubscribe, file-list request/response, chunk
//! request/response and peer-list request/response.

use vstd::prelude::*;
use crate::packet::NodeId;

verus! {

/// Identifier of a content item in the catalogue.
pub type FileHash = u16;

/// Kind of content a client serves.
#[derive(Clone, Copy, Debug, PartialEq, Eq, Structural)]
pub enum ClientType {
    Song,
    Video,
}

/// Mathematical model of a [`SongMetaData`].
pub ghost struct SongMetaDataView {
    pub id: FileHash,
    pub title: Seq<u8>,
    pub artist: Seq<u8>,
}

/// Catalogue entry for one song.
#[derive(Debug)]
pub struct SongMetaData {
    pub id: FileHash,
    pub title: Vec<u8>,
    pub artist: Vec<u8>,
}

impl View for SongMetaData {
    type V = SongMetaDataView;

    open spec fn view(&self) -> SongMetaDataView {
        SongMetaDataView { id: self.id, title: self.title@, artist: self.artist@ }
    }
}

impl SongMetaData {
    /// A deep copy of the entry.
    pub fn dup(&self) -> (r: Self)
        ensures
            r@ == self@,
    {
        SongMetaData {
            id: self.id,
            title: crate::packet::copy_vec(&self.title),
            artist: crate::packet::copy_vec(&self.artist),
        }
    }
}

/// Mathematical model of a [`VideoMetaData`].
pub ghost struct VideoMetaDataView {
    pub id: FileHash,
    pub title: Seq<u8>,
}

/// Catalogue entry for one video; this client does not serve videos and
/// drops such entries, but peers may advertise them.
#[derive(Debug)]
pub struct VideoMetaData {
    pub id: FileHash,
    pub title: Vec<u8>,
}

impl View for VideoMetaData {
    type V = VideoMetaDataView;

    open spec fn view(&self) -> VideoMetaDataView {
        VideoMetaDataView { id: self.id, title: self.title@ }
    }
}

impl VideoMetaData {
    /// A deep copy of the entry.
    pub fn dup(&self) -> (r: Self)
        ensures
            r@ == self@,
    {
        VideoMetaData { id: self.id, title: crate::packet::copy_vec(&self.title) }
    }
}

/// Mathematical model of a [`FileMetadata`].
pub ghost enum FileMetadataView {
    Song(SongMetaDataView),
    Video(VideoMetaDataView),
}

/// One advertised catalogue entry.
#[derive(Debug)]
pub enum FileMetadata {
    Song(SongMetaData),
    Video(VideoMetaData),
}

impl View for FileMetadata {
    type V = FileMetadataView;

    open spec fn view(&self) -> FileMetadataView {
        match self {
            FileMetadata::Song(s) => FileMetadataView::Song(s@),
            FileMetadata::Video(v) => FileMetadataView::Video(v@),
        }
    }
}

impl FileMetadata {
    /// A deep copy of the entry.
    pub fn dup(&self) -> (r: Self)
        ensures
            r@ == self@,
    {
        match self {
            FileMetadata::Song(s) => FileMetadata::Song(s.dup()),
            FileMetadata::Video(v) => FileMetadata::Video(v.dup()),
        }
    }
}

/// The views of a list of catalogue entries.
pub open spec fn file_list_view(l: Seq<FileMetadata>) -> Seq<FileMetadataView> {
    l.map_values(|f: FileMetadata| f@)
}

/// One peer advertised as serving a content item.
#[derive(Clone, Copy, Debug, PartialEq, Eq, Structural)]
pub struct Peer {
    pub client_id: NodeId,
}

/// Which segments a chunk request asks for.
#[derive(Debug)]
pub enum Index {
    All,
    Indexes(Vec<u32>),
}

/// Mathematical model of an [`Index`].
pub ghost enum IndexView {
    All,
    Indexes(Seq<u32>),
}

impl View for Index {
    type V = IndexView;

    open spec fn view(&self) -> IndexView {
        match self {
            Index::All => IndexView::All,
            Index::Indexes(v) => IndexView::Indexes(v@),
        }
    }
}

impl Index {
    /// A deep copy of the index set.
    pub fn dup(&self) -> (r: Self)
        ensures
            r@ == self@,
    {
        match self {
            Index::All => Index::All,
            Index::Indexes(v) => Index::Indexes(crate::packet::copy_vec(v)),
        }
    }
}

/// Announces this client and its current local catalogue to a server.
#[derive(Debug)]
pub struct SubscribeClient {
    pub client_id: NodeId,
    pub client_type: ClientType,
    pub file_list: Vec<FileMetadata>,
}

impl SubscribeClient {
    pub fn new(client_id: NodeId, client_type: ClientType, file_list: Vec<FileMetadata>) -> (r:
        Self)
        ensures
            r.client_id == client_id,
            r.client_type == client_type,
            r.file_list@ == file_list@,
    {
        SubscribeClient { client_id, client_type, file_list }
    }
}

/// Withdraws this client from a server.
#[derive(Clone, Copy, Debug, PartialEq, Eq, Structural)]
pub struct UnsubscribeClient {
    pub client_id: NodeId,
}

/// Asks a server for the current network catalogue.
#[derive(Clone, Copy, Debug, PartialEq, Eq, Structural)]
pub struct RequestFileList {
    pub client_id: NodeId,
}

impl RequestFileList {
    pub fn new(client_id: NodeId) -> (r: Self)
        ensures
            r.client_id == client_id,
    {
        RequestFileList { client_id }
    }
}

/// A server's catalogue reply.
#[derive(Debug)]
pub struct ResponseFileList {
    pub file_list: Vec<FileMetadata>,
}

/// Asks a server which peer serves a content item.
#[derive(Clone, Copy, Debug, PartialEq, Eq, Structural)]
pub struct RequestPeerList {
    pub client_id: NodeId,
    pub file_hash: FileHash,
}

/// A server's reply naming the peers that serve a content item.
#[derive(Debug)]
pub struct ResponsePeerList {
    pub file_hash: FileHash,
    pub peers: Vec<Peer>,
}

/// Asks a peer for one or more segments of a content item.
#[derive(Debug)]
pub struct ChunkRequest {
    pub client_id: NodeId,
    pub file_hash: FileHash,
    pub chunk_index: Index,
}

impl ChunkRequest {
    pub fn new(client_id: NodeId, file_hash: FileHash, chunk_index: Index) -> (r: Self)
        ensures
            r.client_id == client_id,
            r.file_hash == file_hash,
            r.chunk_index@ == chunk_index@,
    {
        ChunkRequest { client_id, file_hash, chunk_index }
    }
}

/// A peer's reply carrying one segment's payload.
#[derive(Debug)]
pub struct ChunkResponse {
    pub file_hash: FileHash,
    pub chunk_index: u32,
    pub total_chunks: u32,
    pub chunk_data: Vec<u8>,
}

impl ChunkResponse {
    pub fn new(file_hash: FileHash, chunk_index: u32, total_chunks: u32, chunk_data: Vec<u8>)
        -> (r: Self)
        ensures
            r.file_hash == file_hash,
            r.chunk_index == chunk_index,
            r.total_chunks == total_chunks,
            r.chunk_data@ == chunk_data@,
    {
        ChunkResponse { file_hash, chunk_index, total_chunks, chunk_data }
    }
}

/// Mathematical model of a [`MessageType`].
pub ghost enum MessageTypeView {
    SubscribeClient { client_id: NodeId, client_type: ClientType, file_list: Seq<FileMetadataView> },
    UnsubscribeClient { client_id: NodeId },
    RequestFileList { client_id: NodeId },
    ResponseFileList { file_list: Seq<FileMetadataView> },
    RequestPeerList { client_id: NodeId, file_hash: FileHash },
    ResponsePeerList { file_hash: FileHash, peers: Seq<Peer> },
    ChunkRequest { client_id: NodeId, file_hash: FileHash, chunk_index: IndexView },
    ChunkResponse { file_hash: FileHash, chunk_index: u32, total_chunks: u32, chunk_data: Seq<u8> },
}

/// One protocol-level message, produced and consumed by the codec; the
/// engine routes these and reacts to them by tag.
#[derive(Debug)]
pub enum MessageType {
    SubscribeClient(SubscribeClient),
    UnsubscribeClient(UnsubscribeClient),
    RequestFileList(RequestFileList),
    ResponseFileList(ResponseFileList),
    RequestPeerList(RequestPeerList),
    ResponsePeerList(ResponsePeerList),
    ChunkRequest(ChunkRequest),
    ChunkResponse(ChunkResponse),
}

impl View for MessageType {
    type V = MessageTypeView;

    open spec fn view(&self) -> MessageTypeView {
        match self {
            MessageType::SubscribeClient(m) => MessageTypeView::SubscribeClient {
                client_id: m.client_id,
                client_type: m.client_type,
                file_list: file_list_view(m.file_list@),
            },
            MessageType::UnsubscribeClient(m) => MessageTypeView::UnsubscribeClient {
                client_id: m.client_id,
            },
            MessageType::RequestFileList(m) => MessageTypeView::RequestFileList {
                client_id: m.client_id,
            },
            MessageType::ResponseFileList(m) => MessageTypeView::ResponseFileList {
                file_list: file_list_view(m.file_list@),
            },
            MessageType::RequestPeerList(m) => MessageTypeView::RequestPeerList {
                client_id: m.client_id,
                file_hash: m.file_hash,
            },
            MessageType::ResponsePeerList(m) => MessageTypeView::ResponsePeerList {
                file_hash: m.file_hash,
                peers: m.peers@,
            },
            MessageType::ChunkRequest(m) => MessageTypeView::ChunkRequest {
                client_id: m.client_id,
                file_hash: m.file_hash,
                chunk_index: m.chunk_index@,
            },
            MessageType::ChunkResponse(m) => MessageTypeView::ChunkResponse {
                file_hash: m.file_hash,
                chunk_index: m.chunk_index,
                total_chunks: m.total_chunks,
                chunk_data: m.chunk_data@,
            },
        }
    }
}

} // verus!
