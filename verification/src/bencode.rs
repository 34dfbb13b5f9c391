use vstd::prelude::*;

use crate::TorrentError;
use crate::tracker::{dec_str, u64_to_dec, PeerAddr, TrackerResponse};

verus! {

/// An ASCII decimal digit.
pub open spec fn is_digit(c: u8) -> bool {
    0x30 <= c <= 0x39
}

/// The first position at or after `i` holding no digit.
pub open spec fn scan_digits(b: Seq<u8>, i: int) -> int
    decreases b.len() - i,
{
    if i < b.len() && is_digit(b[i]) {
        scan_digits(b, i + 1)
    } else {
        i
    }
}

/// The value of a run of decimal digits.
pub open spec fn dec_val(ds: Seq<u8>) -> int
    decreases ds.len(),
{
    if ds.len() == 0 {
        0
    } else {
        dec_val(ds.drop_last()) * 10 + (ds.last() - 0x30)
    }
}

/// `10^n`.
pub open spec fn pow10(n: nat) -> int
    decreases n,
{
    if n == 0 {
        1
    } else {
        10 * pow10((n - 1) as nat)
    }
}

pub proof fn lemma_pow10_mono(a: nat, b: nat)
    requires
        a <= b,
    ensures
        1 <= pow10(a) <= pow10(b),
    decreases b,
{
    if a < b {
        lemma_pow10_mono(a, (b - 1) as nat);
    } else if b > 0 {
        lemma_pow10_mono((a - 1) as nat, (b - 1) as nat);
    }
}

/// A digit run of length `n` is worth less than `10^n`.
pub proof fn lemma_dec_val_bound(ds: Seq<u8>)
    requires
        forall|k: int| 0 <= k < ds.len() ==> is_digit(#[trigger] ds[k]),
    ensures
        0 <= dec_val(ds) < pow10(ds.len()),
    decreases ds.len(),
{
    if ds.len() > 0 {
        lemma_dec_val_bound(ds.drop_last());
    }
}

/// A parsed bencoded integer `i...e` starting at `i`: its value and the
/// position after it. Digit runs longer than 18 places are refused, so every
/// accepted value fits well inside a machine word.
pub open spec fn parse_bint(b: Seq<u8>, i: int) -> Option<(int, int)> {
    if i < b.len() && b[i] == 0x69 {
        let neg = i + 1 < b.len() && b[i + 1] == 0x2D;
        let ds = if neg {
            i + 2
        } else {
            i + 1
        };
        let e = scan_digits(b, ds);
        if e > ds && e - ds <= 18 && e < b.len() && b[e] == 0x65 {
            let v = dec_val(b.subrange(ds, e));
            Some(((if neg { -v } else { v }), e + 1))
        } else {
            None
        }
    } else {
        None
    }
}

/// A parsed bencoded byte string `<len>:<bytes>` starting at `i`: the bytes
/// and the position after them. Length runs longer than 10 digits are
/// refused.
pub open spec fn parse_bstr(b: Seq<u8>, i: int) -> Option<(Seq<u8>, int)> {
    let e = scan_digits(b, i);
    if i < e && e - i <= 10 && e < b.len() && b[e] == 0x3A {
        let n = dec_val(b.subrange(i, e));
        if e + 1 + n <= b.len() {
            Some((b.subrange(e + 1, e + 1 + n), e + 1 + n))
        } else {
            None
        }
    } else {
        None
    }
}

/// The key `interval` as bytes.
pub open spec fn interval_key() -> Seq<u8> {
    seq![0x69u8, 0x6E, 0x74, 0x65, 0x72, 0x76, 0x61, 0x6C]
}

/// The key `peers` as bytes.
pub open spec fn peers_key() -> Seq<u8> {
    seq![0x70u8, 0x65, 0x65, 0x72, 0x73]
}

/// Walks the entries of the response dictionary from position `i`: records
/// `interval` (an integer) and `peers` (a compact byte string of 6-byte
/// address entries); any other key must carry an integer or string value,
/// which is skipped. Yields the recorded values and the position after the
/// closing `e`.
pub open spec fn parse_entries(
    b: Seq<u8>,
    i: int,
    interval: Option<int>,
    peers: Option<Seq<u8>>,
    fuel: nat,
) -> Option<(Option<int>, Option<Seq<u8>>, int)>
    decreases fuel,
{
    if fuel == 0 {
        None
    } else if i < b.len() && b[i] == 0x65 {
        Some((interval, peers, i + 1))
    } else {
        match parse_bstr(b, i) {
            None => None,
            Some((key, j)) => {
                if key == interval_key() {
                    match parse_bint(b, j) {
                        None => None,
                        Some((v, k)) => parse_entries(b, k, Some(v), peers, (fuel - 1) as nat),
                    }
                } else if key == peers_key() {
                    match parse_bstr(b, j) {
                        None => None,
                        Some((s, k)) => parse_entries(b, k, interval, Some(s), (fuel - 1) as nat),
                    }
                } else {
                    match parse_bint(b, j) {
                        Some((_, k)) => parse_entries(b, k, interval, peers, (fuel - 1) as nat),
                        None => match parse_bstr(b, j) {
                            Some((_, k)) => parse_entries(
                                b,
                                k,
                                interval,
                                peers,
                                (fuel - 1) as nat,
                            ),
                            None => None,
                        },
                    }
                }
            },
        }
    }
}

/// The whole response: a dictionary filling both `interval` and `peers`,
/// consumed exactly, the peer string a whole number of 6-byte entries.
pub open spec fn spec_decode_tracker(b: Seq<u8>) -> Option<(int, Seq<u8>)> {
    if b.len() > 0 && b[0] == 0x64 {
        match parse_entries(b, 1, None, None, b.len() as nat) {
            Some((Some(interval), Some(peers), j)) => {
                if j == b.len() && peers.len() % 6 == 0 {
                    Some((interval, peers))
                } else {
                    None
                }
            },
            _ => None,
        }
    } else {
        None
    }
}

/// The dotted-decimal text of one compact peer entry's address.
pub open spec fn ip_str(a: u8, b: u8, c: u8, d: u8) -> Seq<char> {
    dec_str(a as int) + seq!['.'] + dec_str(b as int) + seq!['.'] + dec_str(c as int) + seq!['.']
        + dec_str(d as int)
}

/// Scans the digit run starting at `i`.
fn scan_digits_exec(b: &Vec<u8>, i: usize) -> (r: usize)
    requires
        i <= b@.len(),
    ensures
        i <= r <= b@.len(),
        r as int == scan_digits(b@, i as int),
        forall|k: int| i <= k < r ==> is_digit(#[trigger] b@[k]),
{
    let n: usize = b.len();
    let mut j: usize = i;
    while j < n && b[j] >= 0x30 && b[j] <= 0x39
        invariant
            i <= j <= n,
            n == b@.len(),
            scan_digits(b@, i as int) == scan_digits(b@, j as int),
            forall|k: int| i <= k < j ==> is_digit(#[trigger] b@[k]),
        decreases n - j,
    {
        j = j + 1;
    }
    j
}

/// The value of the digit run `b[from..to]`.
fn dec_val_exec(b: &Vec<u8>, from: usize, to: usize) -> (r: u64)
    requires
        from <= to <= b@.len(),
        to - from <= 18,
        forall|k: int| from <= k < to ==> is_digit(#[trigger] b@[k]),
    ensures
        r as int == dec_val(b@.subrange(from as int, to as int)),
{
    proof {
        reveal_with_fuel(pow10, 20);
    }
    let mut acc: u64 = 0;
    let mut k: usize = from;
    while k < to
        invariant
            from <= k <= to <= b@.len(),
            to - from <= 18,
            forall|j: int| from <= j < to ==> is_digit(#[trigger] b@[j]),
            acc as int == dec_val(b@.subrange(from as int, k as int)),
            acc < pow10((k - from) as nat),
            pow10(18) == 1_000_000_000_000_000_000,
            forall|m: nat| m <= 18 ==> #[trigger] pow10(m) <= pow10(18),
        decreases to - k,
    {
        proof {
            assert(b@.subrange(from as int, k + 1).drop_last() =~= b@.subrange(
                from as int,
                k as int,
            ));
            assert(pow10(((k + 1) - from) as nat) == 10 * pow10((k - from) as nat));
            lemma_pow10_mono(((k + 1) - from) as nat, 18);
        }
        acc = acc * 10 + ((b[k] - 0x30) as u64);
        k = k + 1;
    }
    acc
}

/// Parses a bencoded integer at `i`, mirroring `parse_bint`.
fn parse_bint_exec(b: &Vec<u8>, i: usize) -> (r: Option<(i64, usize)>)
    requires
        i <= b@.len(),
    ensures
        match parse_bint(b@, i as int) {
            Some((v, j)) => r matches Some((ev, ej)) && ev as int == v && ej as int == j && i
                < ej <= b@.len(),
            None => r is None,
        },
{
    let n: usize = b.len();
    if i >= n || b[i] != 0x69 {
        return None;
    }
    let neg: bool = i + 1 < n && b[i + 1] == 0x2D;
    let ds: usize = if neg {
        i + 2
    } else {
        i + 1
    };
    if ds > n {
        return None;
    }
    let e: usize = scan_digits_exec(b, ds);
    if !(e > ds && e - ds <= 18 && e < n && b[e] == 0x65) {
        return None;
    }
    proof {
        lemma_dec_val_bound(b@.subrange(ds as int, e as int));
        lemma_pow10_mono(((e - ds)) as nat, 18);
        reveal_with_fuel(pow10, 20);
    }
    let v: u64 = dec_val_exec(b, ds, e);
    if neg {
        Some((-(v as i64), e + 1))
    } else {
        Some((v as i64, e + 1))
    }
}

/// Parses a bencoded byte string at `i`, mirroring `parse_bstr`; returns the
/// start and end positions of the bytes (the end is also where parsing
/// continues).
fn parse_bstr_exec(b: &Vec<u8>, i: usize) -> (r: Option<(usize, usize)>)
    requires
        i <= b@.len(),
    ensures
        match parse_bstr(b@, i as int) {
            Some((s, j)) => r matches Some((st, en)) && en as int == j && st <= en <= b@.len()
                && b@.subrange(st as int, en as int) == s,
            None => r is None,
        },
{
    let n: usize = b.len();
    let e: usize = scan_digits_exec(b, i);
    if !(e > i && e - i <= 10 && e < n && b[e] == 0x3A) {
        return None;
    }
    proof {
        lemma_dec_val_bound(b@.subrange(i as int, e as int));
        lemma_pow10_mono(((e - i)) as nat, 18);
        reveal_with_fuel(pow10, 20);
    }
    let len: u64 = dec_val_exec(b, i, e);
    if len > (n - e - 1) as u64 {
        return None;
    }
    let st: usize = e + 1;
    let en: usize = st + (len as usize);
    Some((st, en))
}

/// The bytes of the `interval` key.
fn interval_key_vec() -> (r: Vec<u8>)
    ensures
        r@ == interval_key(),
{
    let r: Vec<u8> = vec![0x69u8, 0x6E, 0x74, 0x65, 0x72, 0x76, 0x61, 0x6C];
    proof {
        assert(r@ =~= interval_key());
    }
    r
}

/// The bytes of the `peers` key.
fn peers_key_vec() -> (r: Vec<u8>)
    ensures
        r@ == peers_key(),
{
    let r: Vec<u8> = vec![0x70u8, 0x65, 0x65, 0x72, 0x73];
    proof {
        assert(r@ =~= peers_key());
    }
    r
}

/// Decodes a bencoded announce response: a dictionary carrying `interval`
/// and a compact `peers` byte string — six bytes per peer, four of address
/// and two of port — with unknown integer- or string-valued keys skipped.
/// Anything else is a `DecodeError`.
pub fn decode_tracker_response(body: &Vec<u8>) -> (r: Result<TrackerResponse, TorrentError>)
    ensures
        match spec_decode_tracker(body@) {
            Some((interval, peers)) => r matches Ok(t) && t.interval as int == interval
                && t.peers@.len() == peers.len() / 6 && (forall|k: int|
                0 <= k < t.peers@.len() ==> {
                    &&& (#[trigger] t.peers@[k]).ip@ == ip_str(
                        peers[k * 6],
                        peers[k * 6 + 1],
                        peers[k * 6 + 2],
                        peers[k * 6 + 3],
                    )
                    &&& t.peers@[k].port as int == (peers[k * 6 + 4] as int) * 0x100 + (peers[k * 6
                        + 5] as int)
                    &&& t.peers@[k].peer_id is None
                }),
            None => r == Err::<TrackerResponse, TorrentError>(TorrentError::DecodeError),
        },
{
    let n: usize = body.len();
    if n == 0 || body[0] != 0x64 {
        return Err(TorrentError::DecodeError);
    }
    let ikey = interval_key_vec();
    let pkey = peers_key_vec();
    let mut i: usize = 1;
    let mut interval: Option<i64> = None;
    let mut peers_range: Option<(usize, usize)> = None;
    let mut fuel: usize = n;
    let mut end_pos: usize = 0;
    let mut closed: bool = false;
    while fuel > 0 && !closed
        invariant
            n == body@.len(),
            i <= n,
            fuel <= n,
            !closed ==> parse_entries(body@, 1, None, None, n as nat) == parse_entries(
                body@,
                i as int,
                match interval {
                    Some(v) => Some(v as int),
                    None => None,
                },
                match peers_range {
                    Some((st, en)) => Some(body@.subrange(st as int, en as int)),
                    None => None,
                },
                fuel as nat,
            ),
            closed ==> parse_entries(body@, 1, None, None, n as nat) == Some(
                (
                    match interval {
                        Some(v) => Some(v as int),
                        None => None,
                    },
                    match peers_range {
                        Some((st, en)) => Some(body@.subrange(st as int, en as int)),
                        None => None,
                    },
                    end_pos as int,
                ),
            ),
            ikey@ == interval_key(),
            pkey@ == peers_key(),
            match peers_range {
                Some((st, en)) => st <= en <= n,
                None => true,
            },
        decreases fuel,
    {
        if i < n && body[i] == 0x65 {
            end_pos = i + 1;
            closed = true;
            fuel = fuel - 1;
        } else {
            let parsed_key = parse_bstr_exec(body, i);
            match parsed_key {
                None => {
                    return Err(TorrentError::DecodeError);
                },
                Some((st, en)) => {
                    let is_interval = en - st == 8 && range_is(body, st, &ikey);
                    let is_peers = en - st == 5 && range_is(body, st, &pkey);
                    proof {
                        let key = body@.subrange(st as int, en as int);
                        assert(key.len() == en - st);
                        assert(interval_key().len() == 8);
                        assert(peers_key().len() == 5);
                        if en - st == 8 {
                            assert(body@.subrange(st as int, st as int + 8) =~= key);
                        }
                        if en - st == 5 {
                            assert(body@.subrange(st as int, st as int + 5) =~= key);
                        }
                        if key == interval_key() {
                            assert(key.len() == interval_key().len());
                        }
                        if key == peers_key() {
                            assert(key.len() == peers_key().len());
                        }
                        assert(is_interval == (key == interval_key()));
                        assert(is_peers == (key == peers_key()));
                    }
                    if is_interval {
                        match parse_bint_exec(body, en) {
                            None => {
                                return Err(TorrentError::DecodeError);
                            },
                            Some((v, j)) => {
                                interval = Some(v);
                                i = j;
                                fuel = fuel - 1;
                            },
                        }
                    } else if is_peers {
                        match parse_bstr_exec(body, en) {
                            None => {
                                return Err(TorrentError::DecodeError);
                            },
                            Some((pst, pen)) => {
                                peers_range = Some((pst, pen));
                                i = pen;
                                fuel = fuel - 1;
                            },
                        }
                    } else {
                        match parse_bint_exec(body, en) {
                            Some((_, j)) => {
                                i = j;
                                fuel = fuel - 1;
                            },
                            None => {
                                match parse_bstr_exec(body, en) {
                                    Some((_, j2)) => {
                                        i = j2;
                                        fuel = fuel - 1;
                                    },
                                    None => {
                                        return Err(TorrentError::DecodeError);
                                    },
                                }
                            },
                        }
                    }
                },
            }
        }
    }
    if !closed {
        return Err(TorrentError::DecodeError);
    }
    let iv: i64 = match interval {
        Some(v) => v,
        None => {
            return Err(TorrentError::DecodeError);
        },
    };
    let (pst, pen): (usize, usize) = match peers_range {
        Some(range) => range,
        None => {
            return Err(TorrentError::DecodeError);
        },
    };
    if end_pos != n || (pen - pst) % 6 != 0 {
        return Err(TorrentError::DecodeError);
    }
    let ghost peers_s = body@.subrange(pst as int, pen as int);
    let count: usize = (pen - pst) / 6;
    let mut peers: Vec<PeerAddr> = Vec::new();
    let mut k: usize = 0;
    proof {
        reveal_strlit(".");
        assert("."@ =~= seq!['.']);
    }
    while k < count
        invariant
            n == body@.len(),
            pst <= pen <= n,
            peers_s == body@.subrange(pst as int, pen as int),
            count == peers_s.len() / 6,
            peers_s.len() % 6 == 0,
            peers_s.len() == pen - pst,
            "."@ == seq!['.'],
            k <= count,
            peers@.len() == k,
            forall|m: int|
                0 <= m < k ==> {
                    &&& (#[trigger] peers@[m]).ip@ == ip_str(
                        peers_s[m * 6],
                        peers_s[m * 6 + 1],
                        peers_s[m * 6 + 2],
                        peers_s[m * 6 + 3],
                    )
                    &&& peers@[m].port as int == (peers_s[m * 6 + 4] as int) * 0x100 + (peers_s[m
                        * 6 + 5] as int)
                    &&& peers@[m].peer_id is None
                },
        decreases count - k,
    {
        proof {
            assert(k * 6 + 6 <= count * 6 <= peers_s.len()) by (nonlinear_arith)
                requires
                    k < count,
                    count == peers_s.len() / 6,
                    peers_s.len() % 6 == 0,
                    peers_s.len() >= 0,
            ;
        }
        let e: usize = pst + k * 6;
        let a0: u8 = body[e];
        let a1: u8 = body[e + 1];
        let a2: u8 = body[e + 2];
        let a3: u8 = body[e + 3];
        let mut ip = u64_to_dec(a0 as u64);
        ip.append(".");
        let d1 = u64_to_dec(a1 as u64);
        ip.append(d1.as_str());
        ip.append(".");
        let d2 = u64_to_dec(a2 as u64);
        ip.append(d2.as_str());
        ip.append(".");
        let d3 = u64_to_dec(a3 as u64);
        ip.append(d3.as_str());
        let port: u16 = (body[e + 4] as u16) * 0x100 + (body[e + 5] as u16);
        proof {
            assert(peers_s[k * 6 + 0] == body@[e as int]);
            assert(peers_s[k * 6 + 1] == body@[e + 1]);
            assert(peers_s[k * 6 + 2] == body@[e + 2]);
            assert(peers_s[k * 6 + 3] == body@[e + 3]);
            assert(peers_s[k * 6 + 4] == body@[e + 4]);
            assert(peers_s[k * 6 + 5] == body@[e + 5]);
        }
        peers.push(PeerAddr { peer_id: None, ip, port });
        k = k + 1;
    }
    Ok(TrackerResponse { interval: iv, peers })
}

/// Compares `b[st .. st + pat.len()]` with `pat`.
fn range_is(b: &Vec<u8>, st: usize, pat: &Vec<u8>) -> (r: bool)
    requires
        st + pat@.len() <= b@.len(),
    ensures
        r == (b@.subrange(st as int, st as int + pat@.len() as int) == pat@),
{
    crate::message::range_matches(b, st, pat)
}

} // verus!
