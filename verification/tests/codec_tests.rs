//! Round-trip and error-path tests of the message wire-codec, the
//! fragmenter and the reassembler.

use audio_client::codec::{decode_message, encode_message, CodecError, PacketForge};
use audio_client::message::{
    ChunkRequest, ChunkResponse, ClientType, FileMetadata, Index, MessageType, Peer,
    RequestFileList, RequestPeerList, ResponseFileList, ResponsePeerList, SongMetaData,
    SubscribeClient, UnsubscribeClient, VideoMetaData,
};
use audio_client::packet::{Fragment, PacketType, SourceRoutingHeader};

fn song(id: u16, title: &str, artist: &str) -> SongMetaData {
    SongMetaData { id, title: title.as_bytes().to_vec(), artist: artist.as_bytes().to_vec() }
}

fn assert_round_trip(m: MessageType) -> MessageType {
    let bytes = encode_message(&m);
    decode_message(&bytes).expect("wire form must decode")
}

#[test]
fn round_trip_subscribe() {
    let m = MessageType::SubscribeClient(SubscribeClient {
        client_id: 7,
        client_type: ClientType::Song,
        file_list: vec![
            FileMetadata::Song(song(3, "Aria", "Someone")),
            FileMetadata::Video(VideoMetaData { id: 9, title: b"clip".to_vec() }),
        ],
    });
    match assert_round_trip(m) {
        MessageType::SubscribeClient(s) => {
            assert_eq!(s.client_id, 7);
            assert_eq!(s.client_type, ClientType::Song);
            assert_eq!(s.file_list.len(), 2);
            match &s.file_list[0] {
                FileMetadata::Song(x) => {
                    assert_eq!(x.id, 3);
                    assert_eq!(x.title, b"Aria".to_vec());
                    assert_eq!(x.artist, b"Someone".to_vec());
                },
                _ => panic!("expected a song entry"),
            }
            match &s.file_list[1] {
                FileMetadata::Video(x) => {
                    assert_eq!(x.id, 9);
                    assert_eq!(x.title, b"clip".to_vec());
                },
                _ => panic!("expected a video entry"),
            }
        },
        _ => panic!("wrong variant"),
    }
}

#[test]
fn round_trip_simple_variants() {
    match assert_round_trip(MessageType::UnsubscribeClient(UnsubscribeClient { client_id: 5 })) {
        MessageType::UnsubscribeClient(u) => assert_eq!(u.client_id, 5),
        _ => panic!("wrong variant"),
    }
    match assert_round_trip(MessageType::RequestFileList(RequestFileList { client_id: 1 })) {
        MessageType::RequestFileList(r) => assert_eq!(r.client_id, 1),
        _ => panic!("wrong variant"),
    }
    match assert_round_trip(MessageType::RequestPeerList(RequestPeerList {
        client_id: 2,
        file_hash: 42,
    })) {
        MessageType::RequestPeerList(r) => {
            assert_eq!(r.client_id, 2);
            assert_eq!(r.file_hash, 42);
        },
        _ => panic!("wrong variant"),
    }
}

#[test]
fn round_trip_lists_and_chunks() {
    match assert_round_trip(MessageType::ResponseFileList(ResponseFileList {
        file_list: vec![FileMetadata::Song(song(0, "", ""))],
    })) {
        MessageType::ResponseFileList(r) => assert_eq!(r.file_list.len(), 1),
        _ => panic!("wrong variant"),
    }
    match assert_round_trip(MessageType::ResponsePeerList(ResponsePeerList {
        file_hash: 42,
        peers: vec![Peer { client_id: 7 }, Peer { client_id: 9 }],
    })) {
        MessageType::ResponsePeerList(r) => {
            assert_eq!(r.file_hash, 42);
            assert_eq!(r.peers, vec![Peer { client_id: 7 }, Peer { client_id: 9 }]);
        },
        _ => panic!("wrong variant"),
    }
    match assert_round_trip(MessageType::ChunkRequest(ChunkRequest {
        client_id: 1,
        file_hash: 42,
        chunk_index: Index::Indexes(vec![3, 5]),
    })) {
        MessageType::ChunkRequest(r) => match r.chunk_index {
            Index::Indexes(v) => assert_eq!(v, vec![3, 5]),
            Index::All => panic!("wrong index kind"),
        },
        _ => panic!("wrong variant"),
    }
    match assert_round_trip(MessageType::ChunkRequest(ChunkRequest {
        client_id: 1,
        file_hash: 42,
        chunk_index: Index::All,
    })) {
        MessageType::ChunkRequest(r) => assert!(matches!(r.chunk_index, Index::All)),
        _ => panic!("wrong variant"),
    }
    let payload: Vec<u8> = (0u16..300).map(|x| (x % 251) as u8).collect();
    match assert_round_trip(MessageType::ChunkResponse(ChunkResponse {
        file_hash: 42,
        chunk_index: 3,
        total_chunks: 0,
        chunk_data: payload.clone(),
    })) {
        MessageType::ChunkResponse(r) => {
            assert_eq!(r.file_hash, 42);
            assert_eq!(r.chunk_index, 3);
            assert_eq!(r.total_chunks, 0);
            assert_eq!(r.chunk_data, payload);
        },
        _ => panic!("wrong variant"),
    }
}

#[test]
fn decode_rejects_garbage() {
    assert!(matches!(decode_message(&vec![]), Err(CodecError::Malformed)));
    assert!(matches!(decode_message(&vec![1, 2, 3]), Err(CodecError::Malformed)));
    // a valid message with one trailing byte is rejected
    let mut bytes = encode_message(&MessageType::RequestFileList(RequestFileList {
        client_id: 1,
    }));
    bytes.push(0);
    assert!(matches!(decode_message(&bytes), Err(CodecError::Malformed)));
    // an unknown tag is rejected
    let mut tag9 = vec![0u8; 16];
    tag9[0] = 9;
    assert!(matches!(decode_message(&tag9), Err(CodecError::Malformed)));
}

fn fragments_of(m: &MessageType) -> Vec<Fragment> {
    let mut forge = PacketForge::new();
    let srh = SourceRoutingHeader::new(vec![1, 2, 3], 1);
    let packets = forge.disassemble(m, &srh);
    packets
        .into_iter()
        .map(|p| match p.pack_type {
            PacketType::MsgFragment(f) => f,
            _ => panic!("disassemble must produce fragments"),
        })
        .collect()
}

#[test]
fn disassemble_then_assemble_yields_original() {
    let payload: Vec<u8> = (0u32..1000).map(|x| (x % 241) as u8).collect();
    let m = MessageType::ChunkResponse(ChunkResponse {
        file_hash: 1,
        chunk_index: 2,
        total_chunks: 3,
        chunk_data: payload.clone(),
    });
    let frags = fragments_of(&m);
    assert!(frags.len() > 1);
    assert!(frags.iter().all(|f| f.total_n_fragments == frags.len() as u64));
    assert!(frags.iter().all(|f| f.data.len() <= 128));
    let forge = PacketForge::new();
    match forge.assemble_dynamic(&frags).expect("complete set must assemble") {
        MessageType::ChunkResponse(r) => assert_eq!(r.chunk_data, payload),
        _ => panic!("wrong variant"),
    }
}

#[test]
fn assemble_is_invariant_under_permutation() {
    let m = MessageType::SubscribeClient(SubscribeClient {
        client_id: 4,
        client_type: ClientType::Song,
        file_list: vec![
            FileMetadata::Song(song(1, "One", "A")),
            FileMetadata::Song(song(2, "Two", "B")),
            FileMetadata::Song(song(3, "Three", "C")),
        ],
    });
    let mut frags = fragments_of(&m);
    assert!(frags.len() >= 2);
    frags.reverse();
    let forge = PacketForge::new();
    match forge.assemble_dynamic(&frags).expect("reordered set must assemble") {
        MessageType::SubscribeClient(s) => assert_eq!(s.file_list.len(), 3),
        _ => panic!("wrong variant"),
    }
    // rotate as a second permutation
    let first = frags.remove(0);
    frags.push(first);
    match forge.assemble_dynamic(&frags).expect("rotated set must assemble") {
        MessageType::SubscribeClient(s) => assert_eq!(s.client_id, 4),
        _ => panic!("wrong variant"),
    }
}

#[test]
fn empty_message_travels_as_one_fragment() {
    let m = MessageType::UnsubscribeClient(UnsubscribeClient { client_id: 0 });
    let frags = fragments_of(&m);
    assert_eq!(frags.len(), 1);
    assert_eq!(frags[0].fragment_index, 0);
    assert_eq!(frags[0].total_n_fragments, 1);
}

#[test]
fn assemble_rejects_bad_sets() {
    let forge = PacketForge::new();
    // empty set
    assert_eq!(forge.assemble_dynamic(&vec![]).unwrap_err(), CodecError::BadFragments);
    let m = MessageType::ChunkResponse(ChunkResponse {
        file_hash: 1,
        chunk_index: 0,
        total_chunks: 0,
        chunk_data: vec![7u8; 300],
    });
    let frags = fragments_of(&m);
    assert_eq!(frags.len(), 3);
    // a missing fragment
    let partial: Vec<Fragment> = frags
        .iter()
        .take(2)
        .map(|f| Fragment {
            fragment_index: f.fragment_index,
            total_n_fragments: f.total_n_fragments,
            data: f.data.clone(),
        })
        .collect();
    assert_eq!(forge.assemble_dynamic(&partial).unwrap_err(), CodecError::BadFragments);
    // a duplicated index
    let mut dup: Vec<Fragment> = frags
        .iter()
        .map(|f| Fragment {
            fragment_index: f.fragment_index,
            total_n_fragments: f.total_n_fragments,
            data: f.data.clone(),
        })
        .collect();
    dup[2].fragment_index = 0;
    assert_eq!(forge.assemble_dynamic(&dup).unwrap_err(), CodecError::BadFragments);
    // a fragment set whose bytes are not a message
    let junk = vec![
        Fragment { fragment_index: 0, total_n_fragments: 1, data: vec![0xFF; 16] },
    ];
    assert_eq!(forge.assemble_dynamic(&junk).unwrap_err(), CodecError::Malformed);
}

#[test]
fn session_ids_are_fresh() {
    let mut forge = PacketForge::new();
    let a = forge.get_session_id();
    let b = forge.get_session_id();
    let c = forge.get_session_id();
    assert_eq!(a, 0);
    assert_eq!(b, 1);
    assert_eq!(c, 2);
}
