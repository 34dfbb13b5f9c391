use torrent_core::bencode::decode_tracker_response;
use torrent_core::tracker::{announce_step, AnnounceStep};
use torrent_core::TorrentError;

fn compact_body(interval: &str, peers: &[u8]) -> Vec<u8> {
    let mut b: Vec<u8> = Vec::new();
    b.extend(b"d8:intervali");
    b.extend(interval.as_bytes());
    b.extend(b"e5:peers");
    b.extend(format!("{}", peers.len()).as_bytes());
    b.push(b':');
    b.extend(peers);
    b.push(b'e');
    b
}

#[test]
fn decodes_interval_and_compact_peers() {
    let peers = [127, 0, 0, 1, 0x1A, 0xE1, 10, 0, 0, 2, 0x00, 0x50];
    let t = decode_tracker_response(&compact_body("1800", &peers)).expect("well-formed");
    assert_eq!(t.interval, 1800);
    assert_eq!(t.peers.len(), 2);
    assert_eq!(t.peers[0].ip, "127.0.0.1");
    assert_eq!(t.peers[0].port, 6881);
    assert!(t.peers[0].peer_id.is_none());
    assert_eq!(t.peers[1].ip, "10.0.0.2");
    assert_eq!(t.peers[1].port, 80);
}

#[test]
fn unknown_scalar_keys_are_skipped() {
    let body = b"d8:completei42e8:intervali900e4:name3:abc5:peers6:\x7f\x00\x00\x01\x1a\xe1e"
        .to_vec();
    let t = decode_tracker_response(&body).expect("unknown keys skipped");
    assert_eq!(t.interval, 900);
    assert_eq!(t.peers.len(), 1);
    assert_eq!(t.peers[0].ip, "127.0.0.1");
}

#[test]
fn negative_interval_decodes() {
    let t = decode_tracker_response(&compact_body("-1", &[])).expect("well-formed");
    assert_eq!(t.interval, -1);
    assert!(t.peers.is_empty());
}

#[test]
fn malformed_bodies_are_decode_errors() {
    let cases: Vec<Vec<u8>> = vec![
        b"".to_vec(),
        b"le".to_vec(),
        b"d8:intervali1800ee".to_vec(),
        b"d5:peers0:e".to_vec(),
        b"d8:intervali1800e5:peers4:\x01\x02\x03\x04e".to_vec(),
        b"d8:interval4:nope5:peers0:e".to_vec(),
        {
            let mut b = compact_body("1800", &[]);
            b.push(b'x');
            b
        },
    ];
    for body in cases {
        match decode_tracker_response(&body) {
            Err(TorrentError::DecodeError) => {}
            _ => panic!("malformed body must be a DecodeError"),
        }
    }
}

#[test]
fn redirected_announce_yields_final_peer_list() {
    // One temporary redirect, then a success whose body decodes to the peer
    // list — the whole tracker round shape.
    let base = "http://tracker.example/announce";
    let loc = Some(String::from("http://mirror.example/announce"));
    let new_url = match announce_step(307, &loc, 0, base) {
        AnnounceStep::FollowRedirect(u) => u,
        _ => panic!("redirect must be followed"),
    };
    assert_eq!(new_url, "http://mirror.example/announce");
    assert!(matches!(
        announce_step(200, &None, 1, new_url.as_str()),
        AnnounceStep::DecodeBody
    ));
    let peers = [192, 168, 1, 9, 0x22, 0xB8];
    let t = decode_tracker_response(&compact_body("600", &peers)).expect("final body decodes");
    assert_eq!(t.interval, 600);
    assert_eq!(t.peers[0].ip, "192.168.1.9");
    assert_eq!(t.peers[0].port, 8888);
}
