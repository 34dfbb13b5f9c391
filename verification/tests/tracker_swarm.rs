use sha1::Digest;
use torrent_core::handler::{PeerHandler, PeerId};
use torrent_core::message::Message;
use torrent_core::metainfo::{File, Info, Metainfo};
use torrent_core::piece::PieceHandler;
use torrent_core::session::PeerSession;
use torrent_core::tracker::{
    announce_step, build_query, form_urlencode, i64_to_dec, resolve_location,
    transport_for_scheme, u64_to_dec, AnnounceStep, QueryBuilder, TrackerRequest, TransportKind,
};
use torrent_core::TorrentError;

fn digest_of(data: &[u8]) -> Vec<u8> {
    sha1::Sha1::digest(data).to_vec()
}

#[test]
fn query_builder_joins_pairs() {
    let q = QueryBuilder::new()
        .append_pair("a", "1")
        .append_pair("b", "2")
        .build();
    assert_eq!(q, "a=1&b=2");
}

#[test]
fn form_urlencode_exact() {
    assert_eq!(form_urlencode(&b"a b*-._Z9".to_vec()), "a+b*-._Z9");
    assert_eq!(form_urlencode(&vec![0x00, 0x12, 0xAB, b'/']), "%00%12%AB%2F");
    assert_eq!(form_urlencode(&Vec::new()), "");
}

#[test]
fn decimal_rendering_exact() {
    assert_eq!(u64_to_dec(0), "0");
    assert_eq!(u64_to_dec(65535), "65535");
    assert_eq!(i64_to_dec(-1), "-1");
    assert_eq!(i64_to_dec(50), "50");
}

fn sample_request() -> TrackerRequest {
    TrackerRequest {
        info_hash: vec![0x12, 0x34, 0xAB, 0x00, 0x20, b'a', b'Z', b'*', b'-', b'.', b'_', 0xFF,
            0x01, 0x02, 0x03, 0x04, 0x05, 0x06, 0x07, 0x08],
        peer_id: b"ABCDEFGHIJKLMNOPQRST".to_vec(),
        uploaded: 0,
        downloaded: 1024,
        left: 4096,
        event: String::from("started"),
        ip_address: String::from("127.0.0.1"),
        key: 77,
        num_want: -1,
        port: 6881,
    }
}

#[test]
fn build_query_fixed_order_and_percent_encoding() {
    let q = build_query(&sample_request());
    let expected = String::from("info_hash=%124%AB%00+aZ*-._%FF%01%02%03%04%05%06%07%08")
        + "&peer_id=ABCDEFGHIJKLMNOPQRST"
        + "&downloaded=1024"
        + "&left=4096"
        + "&uploaded=0"
        + "&event=started"
        + "&ip_address=127.0.0.1"
        + "&key=77"
        + "&num_want=-1"
        + "&port=6881"
        + "&no_peer_id=0"
        + "&compact=1";
    assert_eq!(q, expected);
}

#[test]
fn transport_scheme_dispatch() {
    assert_eq!(transport_for_scheme("http"), Ok(TransportKind::Http));
    assert_eq!(transport_for_scheme("https"), Ok(TransportKind::Https));
    assert_eq!(
        transport_for_scheme("udp"),
        Err(TorrentError::UnsupportedScheme)
    );
    assert_eq!(
        transport_for_scheme("wss"),
        Err(TorrentError::UnsupportedScheme)
    );
}

#[test]
fn redirect_then_success_reaches_decode() {
    let base = "http://tracker.example/announce?x=1";
    // One temporary redirect: the location resolves against the original URL
    // and the same request is re-sent there.
    let loc = Some(String::from("/moved/announce"));
    let new_url = match announce_step(307, &loc, 0, base) {
        AnnounceStep::FollowRedirect(u) => u,
        _ => panic!("a 307 with a Location must be followed"),
    };
    assert_eq!(new_url, "http://tracker.example/moved/announce");
    // The request parameters are the original ones, re-encoded identically.
    assert_eq!(build_query(&sample_request()), build_query(&sample_request()));
    // The follow-up 200 is decoded.
    assert!(matches!(
        announce_step(200, &None, 1, new_url.as_str()),
        AnnounceStep::DecodeBody
    ));
}

#[test]
fn redirect_without_location_fails() {
    assert!(matches!(
        announce_step(307, &None, 0, "http://t.example/a"),
        AnnounceStep::Fail(TorrentError::TransportError)
    ));
}

#[test]
fn redirect_chain_is_bounded() {
    let loc = Some(String::from("/again"));
    assert!(matches!(
        announce_step(307, &loc, 8, "http://t.example/a"),
        AnnounceStep::Fail(TorrentError::TransportError)
    ));
}

#[test]
fn non_success_status_fails() {
    assert!(matches!(
        announce_step(500, &None, 0, "http://t.example/a"),
        AnnounceStep::Fail(TorrentError::TransportError)
    ));
}

#[test]
fn location_resolution_follows_url_rules() {
    assert_eq!(
        resolve_location("http://h.example/a/b", "c"),
        Some(String::from("http://h.example/a/c"))
    );
    assert_eq!(
        resolve_location("http://h.example/a/b", "http://other.example/x"),
        Some(String::from("http://other.example/x"))
    );
    assert_eq!(resolve_location("not a url", "c"), None);
}

#[test]
fn session_tracks_choke_interest_and_availability() {
    let mut s = PeerSession::new();
    assert!(!s.may_request());
    s.begin_handshake();
    s.handshake_verified();
    assert!(!s.may_request(), "still choked and not interested");
    s.on_message(&Message::Bitfield(vec![0b1000_0001])).unwrap();
    assert!(s.has_piece(0));
    assert!(!s.has_piece(1));
    assert!(s.has_piece(7));
    assert!(!s.has_piece(8), "past the declared bitfield");
    s.on_message(&Message::Have(2)).unwrap();
    assert!(s.has_piece(2));
    s.on_message(&Message::Unchoke).unwrap();
    s.set_interested(true);
    assert!(s.may_request());
    s.on_message(&Message::Choke).unwrap();
    assert!(!s.may_request(), "a choke gates outgoing requests");
    assert_eq!(
        s.on_message(&Message::Have(800)),
        Err(TorrentError::ProtocolViolation)
    );
}

#[test]
fn closed_session_removed_without_disturbing_swarm() {
    let digests = vec![digest_of(&[1, 2, 3, 4]), digest_of(&[5, 6])];
    let pieces = PieceHandler::new(4, 6, digests);
    let mut h = PeerHandler::new(pieces);
    let established = PeerId { bytes: vec![1; 20] };
    let newcomer = PeerId { bytes: vec![2; 20] };
    assert!(h.insert_peers(PeerId { bytes: vec![1; 20] }));
    assert!(h.insert_peers(PeerId { bytes: vec![2; 20] }));
    assert!(!h.insert_peers(PeerId { bytes: vec![2; 20] }), "no duplicate entries");
    // A piece completes while both sessions are up.
    assert!(h
        .handle_message(Message::Piece(0, 0, vec![1, 2, 3, 4]))
        .unwrap()
        .is_some());
    // The newcomer's connection drops mid-handshake: it alone is removed.
    assert!(h.remove_peer(&newcomer));
    assert!(!h.has_peer_id(&newcomer));
    assert!(h.has_peer_id(&established));
    assert!(h.piece_handler.is_complete(0), "completed pieces are untouched");
    assert!(!h.remove_peer(&newcomer), "already gone");
}

#[test]
fn coordinator_relays_blocks_and_reports_errors() {
    let digests = vec![digest_of(&[1, 2, 3, 4])];
    let mut h = PeerHandler::new(PieceHandler::new(4, 4, digests));
    assert!(h
        .handle_message(Message::Piece(0, 0, vec![1, 2]))
        .unwrap()
        .is_none());
    match h.handle_message(Message::Piece(5, 0, vec![1])) {
        Err(TorrentError::OutOfBounds) => {}
        _ => panic!("a bad block is reported, not fatal"),
    }
    // Non-block traffic is bookkeeping only.
    assert!(h.handle_message(Message::KeepAlive).unwrap().is_none());
    match h.handle_message(Message::Piece(0, 2, vec![3, 4])) {
        Ok(Some((idx, bytes))) => {
            assert_eq!(idx, 0);
            assert_eq!(bytes, vec![1, 2, 3, 4]);
        }
        _ => panic!("the completing block hands the verified bytes out"),
    }
}

fn metainfo_with_files(lengths: &[u64], piece_length: u64) -> Metainfo {
    let files: Vec<File> = lengths
        .iter()
        .map(|l| File {
            path: vec![String::from("d"), format!("f{}", l)],
            length: *l,
            md5sum: None,
        })
        .collect();
    Metainfo {
        info: Info {
            name: String::from("sample"),
            pieces: Vec::new(),
            piece_length,
            md5sum: None,
            length: 0,
            files: Some(files),
            private: None,
            root_hash: None,
        },
        announce: Some(String::from("http://t.example/announce")),
        nodes: None,
        encoding: None,
        httpseeds: None,
        announce_list: None,
        creation_date: None,
        comment: None,
        created_by: None,
    }
}

#[test]
fn total_pieces_counts_partial_final_piece() {
    // 3 + 4 = 7 bytes at piece length 4: two pieces, the second short.
    assert_eq!(metainfo_with_files(&[3, 4], 4).total_pieces(), 2);
    // An exact multiple has no extra piece.
    assert_eq!(metainfo_with_files(&[4, 4], 4).total_pieces(), 2);
    // A single trailing byte still costs a whole piece.
    assert_eq!(metainfo_with_files(&[9], 4).total_pieces(), 3);
}

#[test]
fn get_files_offsets_are_cumulative() {
    let m = metainfo_with_files(&[3, 4, 5], 4);
    let files = m.get_files();
    assert_eq!(files.len(), 3);
    assert_eq!(files[0].offset, 0);
    assert_eq!(files[1].offset, 3);
    assert_eq!(files[2].offset, 7);
    assert_eq!(files[2].length, 5);
    assert_eq!(files[0].path, vec![String::from("d"), String::from("f3")]);
}

#[test]
fn get_files_single_file_uses_name() {
    let mut m = metainfo_with_files(&[], 4);
    m.info.files = None;
    m.info.length = 123;
    let files = m.get_files();
    assert_eq!(files.len(), 1);
    assert_eq!(files[0].offset, 0);
    assert_eq!(files[0].length, 123);
    assert_eq!(files[0].path, vec![String::from("sample")]);
}
