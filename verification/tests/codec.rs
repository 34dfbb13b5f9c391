use torrent_core::message::{HandShake, HandShakeCodec, Message, PeerCodec};
use torrent_core::TorrentError;

fn encode_one(codec: &PeerCodec, m: &Message) -> Vec<u8> {
    let mut out: Vec<u8> = Vec::new();
    codec.encode(m, &mut out).expect("encodable");
    out
}

fn round_trip(codec: &PeerCodec, m: &Message) -> Message {
    let mut buf = encode_one(codec, m);
    let decoded = codec.decode(&mut buf).expect("no violation").expect("complete");
    assert!(buf.is_empty(), "frame fully consumed");
    decoded
}

fn assert_same_wire(codec: &PeerCodec, a: &Message, b: &Message) {
    assert_eq!(encode_one(codec, a), encode_one(codec, b));
}

#[test]
fn round_trip_every_kind() {
    let codec = PeerCodec::new(1 << 20);
    let kinds: Vec<Message> = vec![
        Message::KeepAlive,
        Message::Choke,
        Message::Unchoke,
        Message::Interested,
        Message::NotInterested,
        Message::Have(0),
        Message::Have(0xFFFF_FFFF),
        Message::Bitfield(vec![]),
        Message::Bitfield(vec![0b1010_0001, 0xFF]),
        Message::Request(7, 16384, 16384),
        Message::Piece(3, 32768, vec![0xAB; 16384]),
        Message::Cancel(7, 16384, 16384),
        Message::Port(6881),
    ];
    for m in &kinds {
        let back = round_trip(&codec, m);
        assert_same_wire(&codec, m, &back);
    }
}

#[test]
fn round_trip_fields_survive() {
    let codec = PeerCodec::new(1 << 20);
    match round_trip(&codec, &Message::Piece(3, 9, vec![1, 2, 3])) {
        Message::Piece(i, b, d) => {
            assert_eq!(i, 3);
            assert_eq!(b, 9);
            assert_eq!(d, vec![1, 2, 3]);
        }
        _ => panic!("wrong kind"),
    }
    match round_trip(&codec, &Message::Have(42)) {
        Message::Have(i) => assert_eq!(i, 42),
        _ => panic!("wrong kind"),
    }
    match round_trip(&codec, &Message::Port(6881)) {
        Message::Port(p) => assert_eq!(p, 6881),
        _ => panic!("wrong kind"),
    }
}

#[test]
fn keepalive_is_four_zero_bytes() {
    let codec = PeerCodec::new(64);
    assert_eq!(encode_one(&codec, &Message::KeepAlive), vec![0, 0, 0, 0]);
}

#[test]
fn have_frame_layout_exact() {
    let codec = PeerCodec::new(64);
    assert_eq!(
        encode_one(&codec, &Message::Have(0x01020304)),
        vec![0, 0, 0, 5, 4, 1, 2, 3, 4]
    );
}

#[test]
fn partial_frame_leaves_buffer_untouched() {
    let codec = PeerCodec::new(64);
    let mut buf = vec![0, 0, 0, 5, 4, 1, 2];
    let copy = buf.clone();
    assert!(codec.decode(&mut buf).expect("resumable").is_none());
    assert_eq!(buf, copy);
}

#[test]
fn oversized_length_prefix_is_violation() {
    let codec = PeerCodec::new(16);
    let mut buf = vec![0, 0, 0, 17, 5];
    match codec.decode(&mut buf) {
        Err(TorrentError::ProtocolViolation) => {}
        _ => panic!("an oversized frame must be rejected, not buffered"),
    }
}

#[test]
fn unknown_id_is_violation() {
    let codec = PeerCodec::new(64);
    let mut buf = vec![0, 0, 0, 1, 200];
    match codec.decode(&mut buf) {
        Err(TorrentError::ProtocolViolation) => {}
        _ => panic!("unknown message id must be rejected"),
    }
}

#[test]
fn two_frames_decode_in_order() {
    let codec = PeerCodec::new(64);
    let mut buf = encode_one(&codec, &Message::Choke);
    buf.extend(encode_one(&codec, &Message::Unchoke));
    assert!(matches!(
        codec.decode(&mut buf).unwrap().unwrap(),
        Message::Choke
    ));
    assert!(matches!(
        codec.decode(&mut buf).unwrap().unwrap(),
        Message::Unchoke
    ));
    assert!(buf.is_empty());
}

fn sample_handshake() -> HandShake {
    HandShake {
        info_hash: vec![0xAA; 20],
        peer_id: vec![0x42; 20],
    }
}

#[test]
fn handshake_is_68_bytes_with_header() {
    let mut out: Vec<u8> = Vec::new();
    HandShakeCodec::encode(&sample_handshake(), &mut out);
    assert_eq!(out.len(), 68);
    assert_eq!(out[0], 19);
    assert_eq!(&out[1..20], &b"BitTorrent protocol"[..]);
    assert_eq!(&out[28..48], &[0xAA; 20][..]);
    assert_eq!(&out[48..68], &[0x42; 20][..]);
}

#[test]
fn handshake_round_trip() {
    let mut buf: Vec<u8> = Vec::new();
    HandShakeCodec::encode(&sample_handshake(), &mut buf);
    let expected = vec![0xAA; 20];
    let hs = HandShakeCodec::decode(&mut buf, &expected)
        .expect("valid")
        .expect("complete");
    assert_eq!(hs.info_hash, vec![0xAA; 20]);
    assert_eq!(hs.peer_id, vec![0x42; 20]);
    assert!(buf.is_empty());
}

#[test]
fn handshake_wrong_info_hash_rejected() {
    let mut buf: Vec<u8> = Vec::new();
    HandShakeCodec::encode(&sample_handshake(), &mut buf);
    let expected = vec![0xBB; 20];
    match HandShakeCodec::decode(&mut buf, &expected) {
        Err(TorrentError::ProtocolViolation) => {}
        _ => panic!("a foreign info hash must be rejected before anything else"),
    }
}

#[test]
fn handshake_short_buffer_is_incomplete() {
    let mut buf = vec![19u8];
    let expected = vec![0xAA; 20];
    assert!(HandShakeCodec::decode(&mut buf, &expected)
        .expect("resumable")
        .is_none());
    assert_eq!(buf, vec![19u8]);
}
