use vstd::prelude::*;

use crate::TorrentError;

verus! {

/// All peer wire messages except the handshake.
///
/// Every non-handshake frame is `u32 length prefix` + `u8 id` + payload,
/// where the length counts the id byte and the payload; a length of zero
/// denotes `KeepAlive`, which has no id byte.
pub enum Message {
    KeepAlive,
    Choke,
    Unchoke,
    Interested,
    NotInterested,
    Have(u32),
    Bitfield(Vec<u8>),
    Request(u32, u32, u32),
    Piece(u32, u32, Vec<u8>),
    Cancel(u32, u32, u32),
    Port(u16),
}

/// The mathematical model of a wire message: byte payloads become sequences.
pub enum MessageView {
    KeepAlive,
    Choke,
    Unchoke,
    Interested,
    NotInterested,
    Have(u32),
    Bitfield(Seq<u8>),
    Request(u32, u32, u32),
    Piece(u32, u32, Seq<u8>),
    Cancel(u32, u32, u32),
    Port(u16),
}

impl View for Message {
    type V = MessageView;

    open spec fn view(&self) -> MessageView {
        match self {
            Message::KeepAlive => MessageView::KeepAlive,
            Message::Choke => MessageView::Choke,
            Message::Unchoke => MessageView::Unchoke,
            Message::Interested => MessageView::Interested,
            Message::NotInterested => MessageView::NotInterested,
            Message::Have(i) => MessageView::Have(*i),
            Message::Bitfield(b) => MessageView::Bitfield(b@),
            Message::Request(i, b, l) => MessageView::Request(*i, *b, *l),
            Message::Piece(i, b, d) => MessageView::Piece(*i, *b, d@),
            Message::Cancel(i, b, l) => MessageView::Cancel(*i, *b, *l),
            Message::Port(p) => MessageView::Port(*p),
        }
    }
}

/// The big-endian number held by the four bytes of `s` starting at `i`.
pub open spec fn be32_at(s: Seq<u8>, i: int) -> int
    recommends
        0 <= i,
        i + 4 <= s.len(),
{
    (s[i] as int) * 0x100_0000 + (s[i + 1] as int) * 0x1_0000 + (s[i + 2] as int) * 0x100
        + (s[i + 3] as int)
}

/// The four big-endian bytes of `n`.
pub open spec fn be32_bytes(n: u32) -> Seq<u8> {
    seq![
        (n / 0x100_0000) as u8,
        ((n / 0x1_0000) % 0x100) as u8,
        ((n / 0x100) % 0x100) as u8,
        (n % 0x100) as u8,
    ]
}

/// The message id byte of every kind but `KeepAlive`.
pub open spec fn msg_id(m: MessageView) -> u8
    recommends
        m !== MessageView::KeepAlive,
{
    match m {
        MessageView::KeepAlive => 0,
        MessageView::Choke => 0,
        MessageView::Unchoke => 1,
        MessageView::Interested => 2,
        MessageView::NotInterested => 3,
        MessageView::Have(_) => 4,
        MessageView::Bitfield(_) => 5,
        MessageView::Request(..) => 6,
        MessageView::Piece(..) => 7,
        MessageView::Cancel(..) => 8,
        MessageView::Port(_) => 9,
    }
}

/// The payload bytes that follow the id byte.
pub open spec fn msg_payload(m: MessageView) -> Seq<u8> {
    match m {
        MessageView::KeepAlive => Seq::empty(),
        MessageView::Choke => Seq::empty(),
        MessageView::Unchoke => Seq::empty(),
        MessageView::Interested => Seq::empty(),
        MessageView::NotInterested => Seq::empty(),
        MessageView::Have(i) => be32_bytes(i),
        MessageView::Bitfield(b) => b,
        MessageView::Request(i, b, l) => be32_bytes(i) + be32_bytes(b) + be32_bytes(l),
        MessageView::Piece(i, b, d) => be32_bytes(i) + be32_bytes(b) + d,
        MessageView::Cancel(i, b, l) => be32_bytes(i) + be32_bytes(b) + be32_bytes(l),
        MessageView::Port(p) => seq![(p / 0x100) as u8, (p % 0x100) as u8],
    }
}

/// The value carried by the frame's length prefix: id byte plus payload.
pub open spec fn msg_body_len(m: MessageView) -> int {
    if m === MessageView::KeepAlive {
        0
    } else {
        1 + msg_payload(m).len() as int
    }
}

/// A message is encodable when its length prefix fits in a `u32`.
pub open spec fn encodable(m: MessageView) -> bool {
    msg_body_len(m) <= u32::MAX as int
}

/// The exact byte sequence of a framed wire message.
pub open spec fn spec_encode(m: MessageView) -> Seq<u8>
    recommends
        encodable(m),
{
    if m === MessageView::KeepAlive {
        be32_bytes(0)
    } else {
        be32_bytes(msg_body_len(m) as u32) + seq![msg_id(m)] + msg_payload(m)
    }
}

/// What a payload of `len` bytes under message id `id` decodes to, if anything.
pub open spec fn spec_parse_body(id: u8, p: Seq<u8>) -> Option<MessageView> {
    if id == 0 && p.len() == 0 {
        Some(MessageView::Choke)
    } else if id == 1 && p.len() == 0 {
        Some(MessageView::Unchoke)
    } else if id == 2 && p.len() == 0 {
        Some(MessageView::Interested)
    } else if id == 3 && p.len() == 0 {
        Some(MessageView::NotInterested)
    } else if id == 4 && p.len() == 4 {
        Some(MessageView::Have(be32_at(p, 0) as u32))
    } else if id == 5 {
        Some(MessageView::Bitfield(p))
    } else if id == 6 && p.len() == 12 {
        Some(
            MessageView::Request(
                be32_at(p, 0) as u32,
                be32_at(p, 4) as u32,
                be32_at(p, 8) as u32,
            ),
        )
    } else if id == 7 && p.len() >= 8 {
        Some(MessageView::Piece(be32_at(p, 0) as u32, be32_at(p, 4) as u32, p.skip(8)))
    } else if id == 8 && p.len() == 12 {
        Some(
            MessageView::Cancel(
                be32_at(p, 0) as u32,
                be32_at(p, 4) as u32,
                be32_at(p, 8) as u32,
            ),
        )
    } else if id == 9 && p.len() == 2 {
        Some(MessageView::Port(((p[0] as int) * 0x100 + (p[1] as int)) as u16))
    } else {
        None
    }
}

/// The outcome of one decoding attempt on a receive buffer.
pub enum DecodeStep {
    /// Not enough bytes yet; the buffer must stay untouched.
    Incomplete,
    /// An oversized length prefix, an unknown id, or a payload of the wrong
    /// shape: the peer broke the protocol.
    Violation,
    /// A full frame of `n` bytes decoding to `m`.
    Parsed(MessageView, int),
}

/// The exact decoding relation on a receive buffer: resumable, and rejecting
/// any length prefix above `max` before buffering its payload.
pub open spec fn spec_decode(b: Seq<u8>, max: int) -> DecodeStep {
    if b.len() < 4 {
        DecodeStep::Incomplete
    } else {
        let l = be32_at(b, 0);
        if l > max {
            DecodeStep::Violation
        } else if l == 0 {
            DecodeStep::Parsed(MessageView::KeepAlive, 4)
        } else if b.len() < 4 + l {
            DecodeStep::Incomplete
        } else {
            match spec_parse_body(b[4], b.subrange(5, 4 + l)) {
                Some(m) => DecodeStep::Parsed(m, 4 + l),
                None => DecodeStep::Violation,
            }
        }
    }
}

/// Appends every byte of `src` to `dst`.
pub(crate) fn push_slice(dst: &mut Vec<u8>, src: &Vec<u8>)
    ensures
        final(dst)@ == old(dst)@ + src@,
{
    let mut i: usize = 0;
    while i < src.len()
        invariant
            i <= src@.len(),
            dst@ == old(dst)@ + src@.subrange(0, i as int),
        decreases src@.len() - i,
    {
        dst.push(src[i]);
        i = i + 1;
        proof {
            assert(dst@ =~= old(dst)@ + src@.subrange(0, i as int));
        }
    }
    proof {
        assert(dst@ =~= old(dst)@ + src@);
    }
}

/// Appends the four big-endian bytes of `n` to `dst`.
fn push_be32(dst: &mut Vec<u8>, n: u32)
    ensures
        final(dst)@ == old(dst)@ + be32_bytes(n),
{
    dst.push((n / 0x100_0000) as u8);
    dst.push(((n / 0x1_0000) % 0x100) as u8);
    dst.push(((n / 0x100) % 0x100) as u8);
    dst.push((n % 0x100) as u8);
    proof {
        assert(dst@ =~= old(dst)@ + be32_bytes(n));
    }
}

/// Reads the big-endian `u32` held at offset `off` of `b`.
fn read_be32(b: &Vec<u8>, off: usize) -> (r: u32)
    requires
        off + 4 <= b@.len(),
    ensures
        r as int == be32_at(b@, off as int),
{
    let n: usize = b.len();
    proof {
        assert(off + 4 <= n);
    }
    (b[off] as u32) * 0x100_0000 + (b[off + 1] as u32) * 0x1_0000 + (b[off + 2] as u32) * 0x100
        + (b[off + 3] as u32)
}

/// Copies `b[from..to]` into a fresh vector.
pub(crate) fn copy_range(b: &Vec<u8>, from: usize, to: usize) -> (r: Vec<u8>)
    requires
        from <= to <= b@.len(),
    ensures
        r@ == b@.subrange(from as int, to as int),
{
    let mut r: Vec<u8> = Vec::new();
    let mut i: usize = from;
    while i < to
        invariant
            from <= i <= to <= b@.len(),
            r@ == b@.subrange(from as int, i as int),
        decreases to - i,
    {
        r.push(b[i]);
        i = i + 1;
        proof {
            assert(r@ =~= b@.subrange(from as int, i as int));
        }
    }
    r
}

/// Drops the first `n` bytes of `v`, keeping the rest in order.
pub(crate) fn vec_skip(v: &mut Vec<u8>, n: usize)
    requires
        n <= old(v)@.len(),
    ensures
        final(v)@ == old(v)@.skip(n as int),
{
    let rest = copy_range(v, n, v.len());
    *v = rest;
    proof {
        assert(v@ =~= old(v)@.skip(n as int));
    }
}

/// The stateless encoder/decoder for framed wire messages.
///
/// `max_frame_len` bounds the length prefix a peer may announce; anything
/// larger is a protocol violation, so a hostile peer cannot make the client
/// buffer unbounded data.
pub struct PeerCodec {
    pub max_frame_len: u32,
}

impl PeerCodec {
    pub fn new(max_frame_len: u32) -> (r: PeerCodec)
        ensures
            r.max_frame_len == max_frame_len,
    {
        PeerCodec { max_frame_len }
    }

    /// Appends the exact frame for `item` to `dst`; rejects a message whose
    /// length prefix would not fit in a `u32`.
    pub fn encode(&self, item: &Message, dst: &mut Vec<u8>) -> (r: Result<(), TorrentError>)
        ensures
            encodable(item@) ==> r is Ok && final(dst)@ == old(dst)@ + spec_encode(item@),
            !encodable(item@) ==> r == Err::<(), TorrentError>(TorrentError::ProtocolViolation)
                && final(dst)@ == old(dst)@,
    {
        match item {
            Message::KeepAlive => {
                push_be32(dst, 0);
                Ok(())
            },
            Message::Choke => {
                push_be32(dst, 1);
                dst.push(0);
                proof {
                    assert(dst@ =~= old(dst)@ + spec_encode(item@));
                }
                Ok(())
            },
            Message::Unchoke => {
                push_be32(dst, 1);
                dst.push(1);
                proof {
                    assert(dst@ =~= old(dst)@ + spec_encode(item@));
                }
                Ok(())
            },
            Message::Interested => {
                push_be32(dst, 1);
                dst.push(2);
                proof {
                    assert(dst@ =~= old(dst)@ + spec_encode(item@));
                }
                Ok(())
            },
            Message::NotInterested => {
                push_be32(dst, 1);
                dst.push(3);
                proof {
                    assert(dst@ =~= old(dst)@ + spec_encode(item@));
                }
                Ok(())
            },
            Message::Have(i) => {
                push_be32(dst, 5);
                dst.push(4);
                push_be32(dst, *i);
                proof {
                    assert(dst@ =~= old(dst)@ + spec_encode(item@));
                }
                Ok(())
            },
            Message::Bitfield(b) => {
                if b.len() >= u32::MAX as usize {
                    return Err(TorrentError::ProtocolViolation);
                }
                push_be32(dst, (b.len() as u32) + 1);
                dst.push(5);
                push_slice(dst, b);
                proof {
                    assert(dst@ =~= old(dst)@ + spec_encode(item@));
                }
                Ok(())
            },
            Message::Request(i, bg, ln) => {
                push_be32(dst, 13);
                dst.push(6);
                push_be32(dst, *i);
                push_be32(dst, *bg);
                push_be32(dst, *ln);
                proof {
                    assert(dst@ =~= old(dst)@ + spec_encode(item@));
                }
                Ok(())
            },
            Message::Piece(i, bg, d) => {
                if d.len() >= (u32::MAX - 8) as usize {
                    return Err(TorrentError::ProtocolViolation);
                }
                push_be32(dst, (d.len() as u32) + 9);
                dst.push(7);
                push_be32(dst, *i);
                push_be32(dst, *bg);
                push_slice(dst, d);
                proof {
                    assert(dst@ =~= old(dst)@ + spec_encode(item@));
                }
                Ok(())
            },
            Message::Cancel(i, bg, ln) => {
                push_be32(dst, 13);
                dst.push(8);
                push_be32(dst, *i);
                push_be32(dst, *bg);
                push_be32(dst, *ln);
                proof {
                    assert(dst@ =~= old(dst)@ + spec_encode(item@));
                }
                Ok(())
            },
            Message::Port(p) => {
                push_be32(dst, 3);
                dst.push(9);
                dst.push((*p / 0x100) as u8);
                dst.push((*p % 0x100) as u8);
                proof {
                    assert(dst@ =~= old(dst)@ + spec_encode(item@));
                }
                Ok(())
            },
        }
    }

    /// One resumable decoding attempt on the receive buffer: a partial frame
    /// leaves the buffer untouched and yields `None`; a full frame is consumed
    /// and decoded; a malformed one is rejected without being consumed.
    pub fn decode(&self, src: &mut Vec<u8>) -> (r: Result<Option<Message>, TorrentError>)
        ensures
            match spec_decode(old(src)@, self.max_frame_len as int) {
                DecodeStep::Incomplete => r matches Ok(opt) && opt is None && final(src)@ == old(
                    src,
                )@,
                DecodeStep::Violation => r == Err::<Option<Message>, TorrentError>(
                    TorrentError::ProtocolViolation,
                ) && final(src)@ == old(src)@,
                DecodeStep::Parsed(m, n) => r matches Ok(opt) && opt matches Some(msg) && msg@ == m
                    && final(src)@ == old(src)@.skip(n),
            },
    {
        let n: usize = src.len();
        if n < 4 {
            return Ok(None);
        }
        let l: u32 = read_be32(src, 0);
        if l > self.max_frame_len {
            return Err(TorrentError::ProtocolViolation);
        }
        if l == 0 {
            vec_skip(src, 4);
            return Ok(Some(Message::KeepAlive));
        }
        if ((n as u64) - 4) < (l as u64) {
            return Ok(None);
        }
        let total: usize = 4 + (l as usize);
        let id: u8 = src[4];
        let msg: Message = if id == 0 && l == 1 {
            Message::Choke
        } else if id == 1 && l == 1 {
            Message::Unchoke
        } else if id == 2 && l == 1 {
            Message::Interested
        } else if id == 3 && l == 1 {
            Message::NotInterested
        } else if id == 4 && l == 5 {
            Message::Have(read_be32(src, 5))
        } else if id == 5 {
            Message::Bitfield(copy_range(src, 5, total))
        } else if id == 6 && l == 13 {
            Message::Request(read_be32(src, 5), read_be32(src, 9), read_be32(src, 13))
        } else if id == 7 && l >= 9 {
            Message::Piece(read_be32(src, 5), read_be32(src, 9), copy_range(src, 13, total))
        } else if id == 8 && l == 13 {
            Message::Cancel(read_be32(src, 5), read_be32(src, 9), read_be32(src, 13))
        } else if id == 9 && l == 3 {
            Message::Port((src[5] as u16) * 0x100 + (src[6] as u16))
        } else {
            return Err(TorrentError::ProtocolViolation);
        };
        proof {
            let p = old(src)@.subrange(5, 4 + l as int);
            if l >= 5 {
                assert(be32_at(p, 0) == be32_at(old(src)@, 5));
            }
            if l >= 9 {
                assert(be32_at(p, 4) == be32_at(old(src)@, 9));
            }
            if l >= 13 {
                assert(be32_at(p, 8) == be32_at(old(src)@, 13));
            }
            if id == 5 {
                assert(old(src)@.subrange(5, total as int) =~= p);
            }
            if id == 7 {
                assert(old(src)@.subrange(13, total as int) =~= p.skip(8));
            }
        }
        vec_skip(src, total);
        Ok(Some(msg))
    }
}

/// Recombining the four big-endian bytes of `n` yields `n` again.
pub proof fn lemma_be32_roundtrip(n: u32)
    ensures
        be32_at(be32_bytes(n), 0) == n as int,
{
    let m = n as int;
    vstd::arithmetic::div_mod::lemma_fundamental_div_mod(m, 0x100);
    vstd::arithmetic::div_mod::lemma_fundamental_div_mod(m / 0x100, 0x100);
    vstd::arithmetic::div_mod::lemma_fundamental_div_mod(m / 0x1_0000, 0x100);
    vstd::arithmetic::div_mod::lemma_div_denominator(m, 0x100, 0x100);
    vstd::arithmetic::div_mod::lemma_div_denominator(m, 0x1_0000, 0x100);
}

/// Round-trip law: a buffer beginning with the encoding of any encodable
/// message `m` — zero-length `Bitfield` and maximal `Piece` payloads included —
/// decodes to exactly `m`, consuming exactly the frame and leaving `rest`.
pub proof fn lemma_encode_decode(m: MessageView, rest: Seq<u8>, max: int)
    requires
        encodable(m),
        msg_body_len(m) <= max,
    ensures
        spec_decode(spec_encode(m) + rest, max) == DecodeStep::Parsed(
            m,
            spec_encode(m).len() as int,
        ),
{
    if m === MessageView::KeepAlive {
        let b = spec_encode(m) + rest;
        assert(be32_at(b, 0) == 0);
    } else {
        let l = msg_body_len(m);
        let id = msg_id(m);
        let payload = msg_payload(m);
        let enc = spec_encode(m);
        let b = enc + rest;
        assert(enc == be32_bytes(l as u32) + seq![id] + payload);
        lemma_be32_roundtrip(l as u32);
        assert(b[0] == be32_bytes(l as u32)[0]);
        assert(b[1] == be32_bytes(l as u32)[1]);
        assert(b[2] == be32_bytes(l as u32)[2]);
        assert(b[3] == be32_bytes(l as u32)[3]);
        assert(be32_at(b, 0) == l);
        assert(b[4] == id);
        let p = b.subrange(5, 4 + l);
        assert forall|k: int| 0 <= k < p.len() implies p[k] == payload[k] by {
            assert(b[5 + k] == payload[k]);
        }
        assert(p =~= payload);
        match m {
            MessageView::Have(i) => {
                lemma_be32_roundtrip(i);
                assert(spec_parse_body(id, p) == Some(m));
            },
            MessageView::Request(i, bg, ln) => {
                lemma_be32_roundtrip(i);
                lemma_be32_roundtrip(bg);
                lemma_be32_roundtrip(ln);
                assert(p[4] == be32_bytes(bg)[0]);
                assert(p[5] == be32_bytes(bg)[1]);
                assert(p[6] == be32_bytes(bg)[2]);
                assert(p[7] == be32_bytes(bg)[3]);
                assert(p[8] == be32_bytes(ln)[0]);
                assert(p[9] == be32_bytes(ln)[1]);
                assert(p[10] == be32_bytes(ln)[2]);
                assert(p[11] == be32_bytes(ln)[3]);
                assert(spec_parse_body(id, p) == Some(m));
            },
            MessageView::Cancel(i, bg, ln) => {
                lemma_be32_roundtrip(i);
                lemma_be32_roundtrip(bg);
                lemma_be32_roundtrip(ln);
                assert(p[4] == be32_bytes(bg)[0]);
                assert(p[5] == be32_bytes(bg)[1]);
                assert(p[6] == be32_bytes(bg)[2]);
                assert(p[7] == be32_bytes(bg)[3]);
                assert(p[8] == be32_bytes(ln)[0]);
                assert(p[9] == be32_bytes(ln)[1]);
                assert(p[10] == be32_bytes(ln)[2]);
                assert(p[11] == be32_bytes(ln)[3]);
                assert(spec_parse_body(id, p) == Some(m));
            },
            MessageView::Piece(i, bg, d) => {
                lemma_be32_roundtrip(i);
                lemma_be32_roundtrip(bg);
                assert(p[4] == be32_bytes(bg)[0]);
                assert(p[5] == be32_bytes(bg)[1]);
                assert(p[6] == be32_bytes(bg)[2]);
                assert(p[7] == be32_bytes(bg)[3]);
                assert(p.skip(8) =~= d);
                assert(spec_parse_body(id, p) == Some(m));
            },
            MessageView::Port(pt) => {
                vstd::arithmetic::div_mod::lemma_fundamental_div_mod(pt as int, 0x100);
                assert(spec_parse_body(id, p) == Some(m));
            },
            _ => {
                assert(spec_parse_body(id, p) == Some(m));
            },
        }
    }
}

/// The fixed 68-byte handshake exchanged before any framed message: a length
/// byte of 19, the protocol string, 8 reserved bytes, the 20-byte info hash
/// and the 20-byte peer id.
pub struct HandShake {
    pub info_hash: Vec<u8>,
    pub peer_id: Vec<u8>,
}

/// The mathematical model of a handshake.
pub struct HandShakeView {
    pub info_hash: Seq<u8>,
    pub peer_id: Seq<u8>,
}

impl View for HandShake {
    type V = HandShakeView;

    open spec fn view(&self) -> HandShakeView {
        HandShakeView { info_hash: self.info_hash@, peer_id: self.peer_id@ }
    }
}

impl HandShake {
    /// Both identifiers are 20-byte digests.
    pub open spec fn wf(self) -> bool {
        self.info_hash@.len() == 20 && self.peer_id@.len() == 20
    }
}

/// The 19 bytes of the protocol string `BitTorrent protocol`.
pub open spec fn pstr_bytes() -> Seq<u8> {
    seq![66u8, 105, 116, 84, 111, 114, 114, 101, 110, 116, 32, 112, 114, 111, 116, 111, 99, 111,
        108]
}

/// The exact 68 bytes of an encoded handshake; the reserved bytes are zero.
pub open spec fn spec_encode_handshake(h: HandShakeView) -> Seq<u8>
    recommends
        h.info_hash.len() == 20,
        h.peer_id.len() == 20,
{
    seq![19u8] + pstr_bytes() + seq![0u8, 0, 0, 0, 0, 0, 0, 0] + h.info_hash + h.peer_id
}

/// The outcome of one handshake decoding attempt.
pub enum HandshakeStep {
    /// Fewer than 68 bytes so far; the buffer must stay untouched.
    Incomplete,
    /// A wrong protocol header, or an info hash that is not the expected one:
    /// the peer is rejected before any other message is looked at.
    Violation,
    /// A well-formed handshake for the expected torrent.
    Parsed(HandShakeView),
}

/// The exact decoding relation for a handshake against the expected info
/// hash; reserved bytes are accepted with any value.
pub open spec fn spec_decode_handshake(b: Seq<u8>, expected_info_hash: Seq<u8>) -> HandshakeStep {
    if b.len() < 68 {
        HandshakeStep::Incomplete
    } else if b[0] != 19 || b.subrange(1, 20) != pstr_bytes() {
        HandshakeStep::Violation
    } else if b.subrange(28, 48) != expected_info_hash {
        HandshakeStep::Violation
    } else {
        HandshakeStep::Parsed(
            HandShakeView { info_hash: b.subrange(28, 48), peer_id: b.subrange(48, 68) },
        )
    }
}

/// A handshake whose info hash differs from the expected one is never
/// accepted, whatever the rest of the bytes hold.
pub proof fn lemma_handshake_wrong_hash_rejected(b: Seq<u8>, expected_info_hash: Seq<u8>)
    requires
        b.len() >= 68,
        b.subrange(28, 48) != expected_info_hash,
    ensures
        !(spec_decode_handshake(b, expected_info_hash) is Parsed),
{
}

/// Builds the protocol string bytes.
fn pstr_vec() -> (r: Vec<u8>)
    ensures
        r@ == pstr_bytes(),
{
    let r: Vec<u8> = vec![
        66u8, 105, 116, 84, 111, 114, 114, 101, 110, 116, 32, 112, 114, 111, 116, 111, 99, 111,
        108,
    ];
    proof {
        assert(r@ =~= pstr_bytes());
    }
    r
}

/// Compares `a[off .. off + pat.len()]` with `pat`.
pub(crate) fn range_matches(a: &Vec<u8>, off: usize, pat: &Vec<u8>) -> (r: bool)
    requires
        off + pat@.len() <= a@.len(),
    ensures
        r == (a@.subrange(off as int, off as int + pat@.len() as int) == pat@),
{
    let n: usize = pat.len();
    let alen: usize = a.len();
    proof {
        assert(off + n <= alen);
    }
    let mut i: usize = 0;
    while i < n
        invariant
            off + n <= a@.len(),
            off + n <= usize::MAX,
            n == pat@.len(),
            i <= n,
            forall|k: int| 0 <= k < i ==> a@[off + k] == pat@[k],
        decreases n - i,
    {
        if a[off + i] != pat[i] {
            proof {
                assert(a@.subrange(off as int, off as int + n as int)[i as int] != pat@[i as int]);
            }
            return false;
        }
        i = i + 1;
    }
    proof {
        assert(a@.subrange(off as int, off as int + n as int) =~= pat@);
    }
    true
}

/// The codec for the fixed-format handshake.
pub struct HandShakeCodec;

impl HandShakeCodec {
    /// Appends the exact 68-byte handshake for `h` to `dst`.
    pub fn encode(h: &HandShake, dst: &mut Vec<u8>)
        requires
            h.wf(),
        ensures
            final(dst)@ == old(dst)@ + spec_encode_handshake(h@),
    {
        dst.push(19);
        let pstr = pstr_vec();
        push_slice(dst, &pstr);
        dst.push(0);
        dst.push(0);
        dst.push(0);
        dst.push(0);
        dst.push(0);
        dst.push(0);
        dst.push(0);
        dst.push(0);
        push_slice(dst, &h.info_hash);
        push_slice(dst, &h.peer_id);
        proof {
            assert(dst@ =~= old(dst)@ + spec_encode_handshake(h@));
        }
    }

    /// One resumable decoding attempt for a handshake. A buffer under 68
    /// bytes is left untouched; a bad header or a foreign info hash is a
    /// protocol violation, rejected before any framed message is looked at.
    pub fn decode(src: &mut Vec<u8>, expected_info_hash: &Vec<u8>) -> (r: Result<
        Option<HandShake>,
        TorrentError,
    >)
        requires
            expected_info_hash@.len() == 20,
        ensures
            match spec_decode_handshake(old(src)@, expected_info_hash@) {
                HandshakeStep::Incomplete => r matches Ok(opt) && opt is None && final(src)@ == old(
                    src,
                )@,
                HandshakeStep::Violation => r == Err::<Option<HandShake>, TorrentError>(
                    TorrentError::ProtocolViolation,
                ) && final(src)@ == old(src)@,
                HandshakeStep::Parsed(h) => r matches Ok(opt) && opt matches Some(hs) && hs@ == h
                    && hs.wf() && final(src)@ == old(src)@.skip(68),
            },
    {
        let n: usize = src.len();
        if n < 68 {
            return Ok(None);
        }
        let pstr = pstr_vec();
        if src[0] != 19 || !range_matches(src, 1, &pstr) {
            return Err(TorrentError::ProtocolViolation);
        }
        if !range_matches(src, 28, expected_info_hash) {
            return Err(TorrentError::ProtocolViolation);
        }
        let info_hash = copy_range(src, 28, 48);
        let peer_id = copy_range(src, 48, 68);
        vec_skip(src, 68);
        Ok(Some(HandShake { info_hash, peer_id }))
    }
}

} // verus!

