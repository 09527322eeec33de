//! End-to-end tests of the protocol engine: discovery, subscription,
//! catalogue sync, segment fetch, acknowledgements and retransmission.

use audio_client::client::{ClientState, DroneCommand, DroneEvent, Status};
use audio_client::codec::PacketForge;
use audio_client::message::{
    ChunkRequest, ChunkResponse, FileMetadata, Index, MessageType, Peer, ResponseFileList,
    ResponsePeerList, SongMetaData,
};
use audio_client::packet::{
    FloodResponse, Nack, NackType, NodeType, Packet, PacketType, SourceRoutingHeader,
};
use crossbeam_channel::{unbounded, Receiver, Sender};
use audio_client::client_endpoints::parse_segment_name;

struct Harness {
    state: ClientState,
    packet_in: Sender<Packet>,
    command_in: Sender<DroneCommand>,
    events: Receiver<DroneEvent>,
    neighbor: Receiver<Packet>,
}

/// A client with id 1 and one neighbor with id 2.
fn harness() -> Harness {
    let (ev_s, ev_r) = unbounded();
    let (cmd_s, cmd_r) = unbounded();
    let (pkt_s, pkt_r) = unbounded();
    let (n2_s, n2_r) = unbounded();
    let state = ClientState::new(1, ev_s, cmd_r, pkt_r, vec![(2, n2_s)]);
    Harness { state, packet_in: pkt_s, command_in: cmd_s, events: ev_r, neighbor: n2_r }
}

/// Deliver one packet through the processing loop.
fn deliver(h: &mut Harness, p: Packet) {
    h.packet_in.send(p).unwrap();
    h.state.process_once();
}

/// A flood response addressed to node 1, whose trace starts at node 1.
fn flood_response_to_1(trace: Vec<(u8, NodeType)>) -> Packet {
    let hops: Vec<u8> = trace.iter().rev().map(|p| p.0).collect();
    let cursor = hops.len() - 1;
    Packet::new_flood_response(
        SourceRoutingHeader::new(hops, cursor),
        1,
        FloodResponse { flood_id: 1, path_trace: trace },
    )
}

/// The fragment packets of `m`, routed `from -> 2 -> 1`.
fn message_packets(from: u8, m: &MessageType) -> Vec<Packet> {
    let mut forge = PacketForge::new();
    let srh = SourceRoutingHeader::new(vec![from, 2, 1], 2);
    forge.disassemble(m, &srh)
}

/// Drain the neighbor channel, reassembling the data fragments seen into
/// one message (there must be exactly one message's worth of them).
fn drain_message(h: &Harness) -> MessageType {
    let mut frags = Vec::new();
    while let Ok(p) = h.neighbor.try_recv() {
        if let PacketType::MsgFragment(f) = p.pack_type {
            frags.push(f);
        }
    }
    assert!(!frags.is_empty(), "expected outbound fragments");
    PacketForge::new().assemble_dynamic(&frags).expect("outbound fragments must assemble")
}

fn drain_all(h: &Harness) -> Vec<Packet> {
    let mut out = Vec::new();
    while let Ok(p) = h.neighbor.try_recv() {
        out.push(p);
    }
    out
}

fn learn_topology(h: &mut Harness) {
    // node 3 serves the catalogue; node 7 is a peer client
    deliver(
        h,
        flood_response_to_1(vec![
            (1, NodeType::Client),
            (2, NodeType::Drone),
            (3, NodeType::Server),
        ]),
    );
    deliver(
        h,
        flood_response_to_1(vec![
            (1, NodeType::Client),
            (2, NodeType::Drone),
            (7, NodeType::Client),
        ]),
    );
}

#[test]
fn discovers_server_subscribes_and_runs() {
    let mut h = harness();
    assert_eq!(h.state.get_status(), Status::Starting);
    deliver(
        &mut h,
        flood_response_to_1(vec![
            (1, NodeType::Client),
            (2, NodeType::Drone),
            (3, NodeType::Server),
        ]),
    );
    assert_eq!(h.state.get_status(), Status::Starting);
    // the next iteration notices the server, announces this client and
    // moves to Idle
    h.state.process_once();
    assert_eq!(h.state.get_status(), Status::Idle);
    match drain_message(&h) {
        MessageType::SubscribeClient(s) => {
            assert_eq!(s.client_id, 1);
            assert!(s.file_list.is_empty());
        },
        _ => panic!("the first message must announce this client"),
    }
    // a file-list response with two items moves the session to Running and
    // both items become retrievable from the local store
    deliver(
        &mut h,
        flood_response_to_1(vec![
            (1, NodeType::Client),
            (2, NodeType::Drone),
            (3, NodeType::Server),
        ]),
    );
    drain_all(&h);
    let list = MessageType::ResponseFileList(ResponseFileList {
        file_list: vec![
            FileMetadata::Song(SongMetaData {
                id: 10,
                title: b"First".to_vec(),
                artist: b"A".to_vec(),
            }),
            FileMetadata::Song(SongMetaData {
                id: 11,
                title: b"Second".to_vec(),
                artist: b"B".to_vec(),
            }),
        ],
    });
    for p in message_packets(3, &list) {
        deliver(&mut h, p);
    }
    assert_eq!(h.state.get_status(), Status::Running);
    assert!(h.state.is_running());
    assert_eq!(h.state.db.get_song_meta(10).unwrap().title, b"First".to_vec());
    assert_eq!(h.state.db.get_song_meta(11).unwrap().artist, b"B".to_vec());
}

#[test]
fn segment_fetch_resolves_waiter_with_received_bytes() {
    let mut h = harness();
    learn_topology(&mut h);
    drain_all(&h);
    // the fetch of a fresh content id starts with a peer-list request
    let (w0_s, _w0_r) = unbounded();
    h.state.register_waiter(42, 0, w0_s);
    h.state.send_segment_request(42, 0);
    match drain_message(&h) {
        MessageType::RequestPeerList(r) => {
            assert_eq!(r.client_id, 1);
            assert_eq!(r.file_hash, 42);
        },
        _ => panic!("segment zero must ask for the peer list"),
    }
    // the server names peer 7, and the engine immediately asks it for
    // segment zero
    let peers = MessageType::ResponsePeerList(ResponsePeerList {
        file_hash: 42,
        peers: vec![Peer { client_id: 7 }],
    });
    for p in message_packets(3, &peers) {
        deliver(&mut h, p);
    }
    match drain_message(&h) {
        MessageType::ChunkRequest(r) => {
            assert_eq!(r.file_hash, 42);
            match r.chunk_index {
                Index::Indexes(v) => assert_eq!(v, vec![0]),
                Index::All => panic!("wrong index kind"),
            }
        },
        _ => panic!("a peer-list reply must trigger a chunk request"),
    }
    // a later segment goes straight to the resolved peer
    let (w3_s, w3_r) = unbounded();
    h.state.register_waiter(42, 3, w3_s);
    h.state.send_segment_request(42, 3);
    match drain_message(&h) {
        MessageType::ChunkRequest(r) => match r.chunk_index {
            Index::Indexes(v) => assert_eq!(v, vec![3]),
            Index::All => panic!("wrong index kind"),
        },
        _ => panic!("a later segment must go to the peer"),
    }
    // the peer's chunk response resolves the original caller's wait
    let chunk = MessageType::ChunkResponse(ChunkResponse {
        file_hash: 42,
        chunk_index: 3,
        total_chunks: 0,
        chunk_data: b"segment-bytes".to_vec(),
    });
    for p in message_packets(7, &chunk) {
        deliver(&mut h, p);
    }
    assert_eq!(w3_r.try_recv(), Ok(true));
    assert_eq!(h.state.take_song(42, 3), Some(b"segment-bytes".to_vec()));
    assert_eq!(h.state.take_song(42, 3), None);
}

/// Resolve peer 7 for content 42 and send it one chunk request; returns
/// that request's fragment packet.
fn one_outstanding_chunk_request(h: &mut Harness) -> Packet {
    learn_topology(h);
    drain_all(h);
    let peers = MessageType::ResponsePeerList(ResponsePeerList {
        file_hash: 42,
        peers: vec![Peer { client_id: 7 }],
    });
    for p in message_packets(3, &peers) {
        deliver(h, p);
    }
    let sent = drain_all(h);
    let frag: Vec<&Packet> = sent
        .iter()
        .filter(|p| matches!(p.pack_type, PacketType::MsgFragment(_)))
        .collect();
    assert_eq!(frag.len(), 1, "the chunk request must fit one fragment");
    Packet {
        routing_header: SourceRoutingHeader {
            hops: frag[0].routing_header.hops.clone(),
            hop_index: frag[0].routing_header.hop_index,
        },
        session_id: frag[0].session_id,
        pack_type: match &frag[0].pack_type {
            PacketType::MsgFragment(f) => PacketType::MsgFragment(f.dup()),
            _ => unreachable!(),
        },
    }
}

#[test]
fn dropped_nack_retransmits_once_without_discovery() {
    let mut h = harness();
    let sent = one_outstanding_chunk_request(&mut h);
    let flood_id_before = h.state.flood_id;
    let log_before = h.state.sent_log.len();
    let nack = Nack { fragment_index: 0, nack_type: NackType::Dropped };
    deliver(
        &mut h,
        Packet::new_nack(SourceRoutingHeader::new(vec![2, 1], 1), sent.session_id, nack),
    );
    // exactly one retransmission along a fresh path, no discovery round
    assert_eq!(h.state.sent_log.len(), log_before + 1);
    assert_eq!(h.state.flood_id, flood_id_before);
    let resent = drain_all(&h);
    assert_eq!(resent.len(), 1);
    match &resent[0].pack_type {
        PacketType::MsgFragment(f) => assert_eq!(f.fragment_index, 0),
        _ => panic!("the retransmission must carry the fragment again"),
    }
    assert_eq!(resent[0].session_id, sent.session_id);
    assert_eq!(resent[0].routing_header.hops, vec![1, 2, 7]);
}

#[test]
fn routing_error_nack_triggers_discovery_then_retransmits() {
    let mut h = harness();
    let sent = one_outstanding_chunk_request(&mut h);
    let flood_id_before = h.state.flood_id;
    let nack = Nack { fragment_index: 0, nack_type: NackType::ErrorInRouting(2) };
    deliver(
        &mut h,
        Packet::new_nack(SourceRoutingHeader::new(vec![2, 1], 1), sent.session_id, nack),
    );
    assert_eq!(h.state.flood_id, flood_id_before + 1);
    let out = drain_all(&h);
    let floods = out
        .iter()
        .filter(|p| matches!(p.pack_type, PacketType::FloodRequest(_)))
        .count();
    let frags = out
        .iter()
        .filter(|p| matches!(p.pack_type, PacketType::MsgFragment(_)))
        .count();
    assert_eq!(floods, 1, "one fresh discovery round toward the one neighbor");
    assert_eq!(frags, 1, "one retransmission after the discovery round");
}

#[test]
fn log_only_nacks_do_not_retransmit() {
    let mut h = harness();
    let sent = one_outstanding_chunk_request(&mut h);
    let log_before = h.state.sent_log.len();
    for kind in [NackType::DestinationIsDrone, NackType::UnexpectedRecipient(9)] {
        let nack = Nack { fragment_index: 0, nack_type: kind };
        deliver(
            &mut h,
            Packet::new_nack(SourceRoutingHeader::new(vec![2, 1], 1), sent.session_id, nack),
        );
    }
    // a NACK for an identity with no ledger entry does nothing either
    let nack = Nack { fragment_index: 0, nack_type: NackType::Dropped };
    deliver(&mut h, Packet::new_nack(SourceRoutingHeader::new(vec![2, 1], 1), 999, nack));
    assert_eq!(h.state.sent_log.len(), log_before);
    assert!(drain_all(&h).is_empty());
}

#[test]
fn ledger_entry_exists_until_ack_and_reack_is_noop() {
    let mut h = harness();
    let sent = one_outstanding_chunk_request(&mut h);
    let key = audio_client::client::ledger_key_exec(0, sent.session_id);
    assert!(h.state.packets_history.contains_key(&key));
    // the matching ACK removes exactly that entry
    deliver(
        &mut h,
        Packet::new_ack(SourceRoutingHeader::new(vec![7, 2, 1], 2), sent.session_id, 0),
    );
    assert!(!h.state.packets_history.contains_key(&key));
    // a duplicate ACK is a logged no-op
    deliver(
        &mut h,
        Packet::new_ack(SourceRoutingHeader::new(vec![7, 2, 1], 2), sent.session_id, 0),
    );
    assert!(!h.state.packets_history.contains_key(&key));
}

#[test]
fn flood_round_ids_strictly_increase() {
    let mut h = harness();
    h.state.launch_discovery();
    h.state.launch_discovery();
    let out = drain_all(&h);
    let ids: Vec<u64> = out
        .iter()
        .filter_map(|p| match &p.pack_type {
            PacketType::FloodRequest(f) => Some(f.flood_id),
            _ => None,
        })
        .collect();
    assert_eq!(ids, vec![1, 2]);
    assert!(ids[0] < ids[1]);
    assert_eq!(h.state.flood_id, 2);
}

#[test]
fn refresh_acts_only_while_running() {
    let mut h = harness();
    // before Running both refresh halves are idle
    h.state.refresh_discovery();
    h.state.refresh_filelist();
    assert_eq!(h.state.flood_id, 0);
    assert!(drain_all(&h).is_empty());
    // reach Running: a server appears and a file list arrives
    learn_topology(&mut h);
    let list = MessageType::ResponseFileList(ResponseFileList { file_list: vec![] });
    for p in message_packets(3, &list) {
        deliver(&mut h, p);
    }
    assert_eq!(h.state.get_status(), Status::Running);
    drain_all(&h);
    // now the refresh halves act
    h.state.refresh_filelist();
    match drain_message(&h) {
        MessageType::RequestFileList(r) => assert_eq!(r.client_id, 1),
        _ => panic!("a running session refreshes its file list"),
    }
    let flood_id_before = h.state.flood_id;
    h.state.refresh_discovery();
    assert_eq!(h.state.flood_id, flood_id_before + 1);
    let floods = drain_all(&h)
        .iter()
        .filter(|p| matches!(p.pack_type, PacketType::FloodRequest(_)))
        .count();
    assert_eq!(floods, 1);
}

#[test]
fn received_fragments_are_acknowledged_in_any_order() {
    let mut h = harness();
    learn_topology(&mut h);
    drain_all(&h);
    let list = MessageType::ResponseFileList(ResponseFileList {
        file_list: vec![FileMetadata::Song(SongMetaData {
            id: 10,
            title: vec![7u8; 200],
            artist: b"A".to_vec(),
        })],
    });
    let mut packets = message_packets(3, &list);
    assert!(packets.len() >= 2);
    packets.reverse();
    let n = packets.len();
    for p in packets {
        deliver(&mut h, p);
    }
    // reassembly tolerates out-of-order arrival
    assert_eq!(h.state.db.get_song_meta(10).unwrap().title, vec![7u8; 200]);
    // one acknowledgement per fragment went back toward the origin
    let acks = drain_all(&h)
        .iter()
        .filter(|p| matches!(p.pack_type, PacketType::Ack(_)))
        .count();
    assert_eq!(acks, n);
}

#[test]
fn chunk_requests_are_served_from_the_store() {
    let mut h = harness();
    learn_topology(&mut h);
    drain_all(&h);
    h.state.db.insert_song_segment(42, 0, b"alpha".to_vec()).unwrap();
    h.state.db.insert_song_segment(42, 2, b"gamma".to_vec()).unwrap();
    // peer 7 asks for segments 0, 1 and 2; segment 1 is not held and is
    // skipped, the others are served in request order
    let req = MessageType::ChunkRequest(ChunkRequest {
        client_id: 7,
        file_hash: 42,
        chunk_index: Index::Indexes(vec![0, 1, 2]),
    });
    for p in message_packets(7, &req) {
        deliver(&mut h, p);
    }
    let forge = PacketForge::new();
    let responses: Vec<(u32, Vec<u8>)> = drain_all(&h)
        .into_iter()
        .filter_map(|p| match p.pack_type {
            PacketType::MsgFragment(f) => Some(f),
            _ => None,
        })
        .map(|f| match forge.assemble_dynamic(&vec![f]).expect("one-fragment response") {
            MessageType::ChunkResponse(r) => (r.chunk_index, r.chunk_data),
            _ => panic!("a chunk request must be answered with chunk responses"),
        })
        .collect();
    assert_eq!(
        responses,
        vec![(0, b"alpha".to_vec()), (2, b"gamma".to_vec())],
    );
}

#[test]
fn crash_terminates_and_ignores_later_commands() {
    let mut h = harness();
    h.command_in.send(DroneCommand::Crash).unwrap();
    let go_on = h.state.process_once();
    assert!(!go_on);
    assert_eq!(h.state.get_status(), Status::Terminated);
    // after termination nothing is processed any more
    let (n9_s, _n9_r) = unbounded();
    h.command_in.send(DroneCommand::AddSender(9, n9_s)).unwrap();
    assert!(!h.state.process_once());
    assert!(!h.state.senders.contains_key(&9));
}

#[test]
fn link_table_commands() {
    let mut h = harness();
    let (n9_s, _n9_r) = unbounded();
    assert!(h.state.add_sender(9, n9_s.clone()).is_ok());
    assert!(h.state.senders.contains_key(&9));
    // a duplicate id is rejected
    assert!(h.state.add_sender(9, n9_s.clone()).is_err());
    // the client's own id never gets a channel
    assert!(h.state.add_sender(1, n9_s).is_err());
    assert!(!h.state.senders.contains_key(&1));
    assert!(h.state.remove_sender(9).is_ok());
    assert!(!h.state.senders.contains_key(&9));
    // removing an absent neighbor fails
    assert!(h.state.remove_sender(9).is_err());
}

#[test]
fn dispatch_to_unknown_neighbor_fails_untouched() {
    let mut h = harness();
    let p = Packet::new_ack(SourceRoutingHeader::new(vec![1, 5], 1), 3, 0);
    let r = h.state.send_packets_vec(&vec![p], 5);
    assert!(r.is_err());
    assert!(h.state.sent_log.is_empty());
    assert!(h.state.packets_history.is_empty());
}

#[test]
fn every_dispatched_packet_is_announced() {
    let mut h = harness();
    h.state.launch_discovery();
    let out = drain_all(&h);
    assert_eq!(out.len(), 1);
    match h.events.try_recv() {
        Ok(DroneEvent::PacketSent(p)) => {
            assert!(matches!(p.pack_type, PacketType::FloodRequest(_)))
        },
        _ => panic!("the controlling authority must see the send"),
    }
}

#[test]
fn database_stores_and_serves() {
    let mut h = harness();
    let id = h
        .state
        .db
        .insert_song_meta(SongMetaData { id: 5, title: b"T".to_vec(), artist: b"A".to_vec() })
        .unwrap();
    assert_eq!(id, 5);
    // id zero gets a derived id
    let derived = h
        .state
        .db
        .insert_song_meta(SongMetaData { id: 0, title: b"X".to_vec(), artist: b"Y".to_vec() })
        .unwrap();
    assert_eq!(h.state.db.get_song_meta(derived).unwrap().title, b"X".to_vec());
    // same id replaces
    h.state
        .db
        .insert_song_meta(SongMetaData { id: 5, title: b"T2".to_vec(), artist: b"A".to_vec() })
        .unwrap();
    assert_eq!(h.state.db.get_song_meta(5).unwrap().title, b"T2".to_vec());
    assert_eq!(h.state.db.get_all_songs_meta().unwrap().len(), 2);
    assert!(h.state.db.get_song_meta(77).is_err());
    h.state.db.insert_song_segment(5, 0, b"playlist".to_vec()).unwrap();
    assert_eq!(h.state.db.get_song_segment(5, 0).unwrap(), b"playlist".to_vec());
    assert!(h.state.db.get_song_segment(5, 1).is_err());
}

#[test]
fn routing_oracle_answers_learned_paths() {
    let mut h = harness();
    learn_topology(&mut h);
    let path = h.state.routing_handler.best_path(1, 7).expect("path to 7 was learned");
    assert_eq!(path.hops, vec![1, 2, 7]);
    assert_eq!(path.hop_index, 1);
    assert!(h.state.routing_handler.best_path(1, 9).is_none());
    // congestion feedback does not lose paths
    h.state.routing_handler.node_nack(2);
    assert!(h.state.routing_handler.best_path(1, 7).is_some());
}

#[test]
fn flood_requests_are_answered_toward_the_asker() {
    let mut h = harness();
    // a flood request from node 4, arriving through neighbor 2
    let req = audio_client::packet::FloodRequest {
        flood_id: 9,
        initiator_id: 4,
        path_trace: vec![(4, NodeType::Client), (2, NodeType::Drone)],
    };
    deliver(
        &mut h,
        Packet::new_flood_request(SourceRoutingHeader::new(vec![], 0), 1, req),
    );
    let out = drain_all(&h);
    assert_eq!(out.len(), 1);
    match &out[0].pack_type {
        PacketType::FloodResponse(fr) => {
            assert_eq!(fr.flood_id, 9);
            assert_eq!(out[0].routing_header.hops, vec![1, 2, 4]);
            assert_eq!(out[0].routing_header.hop_index, 1);
        },
        _ => panic!("a flood request must be answered with a response"),
    }
}

#[test]
fn packet_for_another_node_is_dropped() {
    let mut h = harness();
    let before = h.state.packets_history.len();
    // an ACK whose route ends elsewhere must not touch this ledger
    deliver(
        &mut h,
        Packet::new_ack(SourceRoutingHeader::new(vec![1, 2, 9], 2), 1, 0),
    );
    assert_eq!(h.state.packets_history.len(), before);
    assert!(drain_all(&h).is_empty());
}

#[test]
fn packet_type_names() {
    let p = Packet::new_ack(SourceRoutingHeader::new(vec![1, 2], 1), 1, 0);
    assert_eq!(ClientState::get_packet_type(&p.pack_type), "Ack");
    let n = Packet::new_nack(
        SourceRoutingHeader::new(vec![1, 2], 1),
        1,
        Nack { fragment_index: 0, nack_type: NackType::Dropped },
    );
    assert_eq!(ClientState::get_packet_type(&n.pack_type), "Nack");
}

#[test]
fn segment_names_parse() {
    assert_eq!(parse_segment_name(b"anything.m3u8"), Some(0));
    assert_eq!(parse_segment_name(b"segment0.ts"), Some(1));
    assert_eq!(parse_segment_name(b"segment7.ts"), Some(8));
    assert_eq!(parse_segment_name(b"segment123.ts"), Some(124));
    assert_eq!(parse_segment_name(b"bogus"), None);
    assert_eq!(parse_segment_name(b"segmentx7.ts"), None);
    assert_eq!(parse_segment_name(b"segment.ts"), None);
    assert_eq!(parse_segment_name(b"segment7.mp3"), None);
}
