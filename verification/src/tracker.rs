use vstd::prelude::*;

use crate::TorrentError;

verus! {

/// One announce call's immutable parameters.
pub struct TrackerRequest {
    pub info_hash: Vec<u8>,
    pub peer_id: Vec<u8>,
    pub uploaded: u64,
    pub downloaded: u64,
    pub left: u64,
    pub event: String,
    pub ip_address: String,
    pub key: u32,
    pub num_want: i64,
    pub port: u16,
}

/// One candidate peer from a tracker response.
pub struct PeerAddr {
    pub peer_id: Option<Vec<u8>>,
    pub ip: String,
    pub port: u16,
}

/// A decoded announce response: the re-announce interval and the peer list.
pub struct TrackerResponse {
    pub interval: i64,
    pub peers: Vec<PeerAddr>,
}

/// Bytes that the form-urlencoded byte serializer passes through unchanged:
/// ASCII alphanumerics and `*`, `-`, `.`, `_`.
pub open spec fn form_unchanged(b: u8) -> bool {
    b == 0x2A || b == 0x2D || b == 0x2E || (0x30 <= b <= 0x39) || (0x41 <= b <= 0x5A) || b == 0x5F
        || (0x61 <= b <= 0x7A)
}

/// The uppercase hex digit for `n`.
pub open spec fn hex_upper(n: u8) -> char
    recommends
        n < 16,
{
    if n < 10 {
        (48 + n) as char
    } else {
        (55 + n) as char
    }
}

/// How one byte is serialized: unchanged, `+` for space, else `%XX`.
pub open spec fn form_byte(b: u8) -> Seq<char> {
    if b == 0x20 {
        seq!['+']
    } else if form_unchanged(b) {
        seq![b as char]
    } else {
        seq!['%', hex_upper(b / 16), hex_upper(b % 16)]
    }
}

/// The full form-urlencoded serialization of a byte string.
pub open spec fn form_encoded(s: Seq<u8>) -> Seq<char>
    decreases s.len(),
{
    if s.len() == 0 {
        Seq::empty()
    } else {
        form_byte(s[0]) + form_encoded(s.skip(1))
    }
}

/// Relies on `url::form_urlencoded::byte_serialize`: each byte is mapped on
/// its own — ASCII alphanumerics and `*-._` pass unchanged, a space becomes
/// `+`, and every other byte becomes `%XX` with uppercase hex digits.
#[verifier::external_body]
pub fn form_urlencode(bytes: &Vec<u8>) -> (r: String)
    ensures
        r@ == form_encoded(bytes@),
{
    url::form_urlencoded::byte_serialize(bytes.as_slice()).collect()
}

/// A query string under construction: `key=value` pairs joined by `&`.
pub struct QueryBuilder {
    pub query: String,
}

/// One appended pair: `key=value`, preceded by `&` unless the query was
/// empty.
pub open spec fn spec_append_pair(q: Seq<char>, key: Seq<char>, value: Seq<char>) -> Seq<char> {
    if q.len() == 0 {
        key + seq!['='] + value
    } else {
        q + seq!['&'] + key + seq!['='] + value
    }
}

impl QueryBuilder {
    pub fn new() -> (r: QueryBuilder)
        ensures
            r.query@ == Seq::<char>::empty(),
    {
        QueryBuilder { query: String::new() }
    }

    pub fn append_pair(self, key: &str, value: &str) -> (r: QueryBuilder)
        ensures
            r.query@ == spec_append_pair(self.query@, key@, value@),
    {
        let mut q = self.query;
        if q.as_str().unicode_len() != 0 {
            q.append("&");
            proof {
                reveal_strlit("&");
            }
        }
        q.append(key);
        q.append("=");
        q.append(value);
        proof {
            reveal_strlit("=");
        }
        QueryBuilder { query: q }
    }

    pub fn build(self) -> (r: String)
        ensures
            r@ == self.query@,
    {
        self.query
    }
}

/// The decimal digit character for `d`.
pub open spec fn digit_char(d: int) -> char
    recommends
        0 <= d < 10,
{
    (48 + d) as char
}

/// The decimal digits of a non-negative number, most significant first.
pub open spec fn dec_str(n: int) -> Seq<char>
    recommends
        n >= 0,
    decreases n,
{
    if n < 10 {
        seq![digit_char(n)]
    } else {
        dec_str(n / 10) + seq![digit_char(n % 10)]
    }
}

/// The decimal rendering of a signed number.
pub open spec fn dec_str_signed(n: int) -> Seq<char> {
    if n < 0 {
        seq!['-'] + dec_str(-n)
    } else {
        dec_str(n)
    }
}

/// The one-character string for a decimal digit.
fn digit_str(d: u8) -> (r: &'static str)
    requires
        d < 10,
    ensures
        r@ =~= seq![digit_char(d as int)],
{
    let r: &'static str = match d {
        0 => "0",
        1 => "1",
        2 => "2",
        3 => "3",
        4 => "4",
        5 => "5",
        6 => "6",
        7 => "7",
        8 => "8",
        _ => "9",
    };
    proof {
        reveal_strlit("0");
        reveal_strlit("1");
        reveal_strlit("2");
        reveal_strlit("3");
        reveal_strlit("4");
        reveal_strlit("5");
        reveal_strlit("6");
        reveal_strlit("7");
        reveal_strlit("8");
        reveal_strlit("9");
    }
    r
}

/// Renders `n` in decimal.
pub fn u64_to_dec(n: u64) -> (r: String)
    ensures
        r@ == dec_str(n as int),
    decreases n,
{
    if n < 10 {
        String::from_str(digit_str(n as u8))
    } else {
        let mut s = u64_to_dec(n / 10);
        s.append(digit_str((n % 10) as u8));
        s
    }
}

/// Renders `n` in decimal with a sign when negative.
pub fn i64_to_dec(n: i64) -> (r: String)
    requires
        n > i64::MIN,
    ensures
        r@ == dec_str_signed(n as int),
{
    if n < 0 {
        let mut s = String::from_str("-");
        proof {
            reveal_strlit("-");
        }
        let m: u64 = (-n) as u64;
        let d = u64_to_dec(m);
        s.append(d.as_str());
        s
    } else {
        u64_to_dec(n as u64)
    }
}

/// The exact query string of an announce request: the info hash and peer id
/// percent-encoded as raw bytes, then every counter and flag in a fixed,
/// stable order.
pub open spec fn spec_build_query(req: TrackerRequest) -> Seq<char> {
    let q0 = spec_append_pair(Seq::<char>::empty(), "info_hash"@, form_encoded(req.info_hash@));
    let q1 = spec_append_pair(q0, "peer_id"@, form_encoded(req.peer_id@));
    let q2 = spec_append_pair(q1, "downloaded"@, dec_str(req.downloaded as int));
    let q3 = spec_append_pair(q2, "left"@, dec_str(req.left as int));
    let q4 = spec_append_pair(q3, "uploaded"@, dec_str(req.uploaded as int));
    let q5 = spec_append_pair(q4, "event"@, req.event@);
    let q6 = spec_append_pair(q5, "ip_address"@, req.ip_address@);
    let q7 = spec_append_pair(q6, "key"@, dec_str(req.key as int));
    let q8 = spec_append_pair(q7, "num_want"@, dec_str_signed(req.num_want as int));
    let q9 = spec_append_pair(q8, "port"@, dec_str(req.port as int));
    let q10 = spec_append_pair(q9, "no_peer_id"@, "0"@);
    spec_append_pair(q10, "compact"@, "1"@)
}

/// Builds the announce query string for `request`.
pub fn build_query(request: &TrackerRequest) -> (r: String)
    requires
        request.num_want > i64::MIN,
    ensures
        r@ == spec_build_query(*request),
{
    let info_hash_str = form_urlencode(&request.info_hash);
    let peer_id_str = form_urlencode(&request.peer_id);
    let downloaded = u64_to_dec(request.downloaded);
    let left = u64_to_dec(request.left);
    let uploaded = u64_to_dec(request.uploaded);
    let key = u64_to_dec(request.key as u64);
    let num_want = i64_to_dec(request.num_want);
    let port = u64_to_dec(request.port as u64);
    QueryBuilder::new()
        .append_pair("info_hash", info_hash_str.as_str())
        .append_pair("peer_id", peer_id_str.as_str())
        .append_pair("downloaded", downloaded.as_str())
        .append_pair("left", left.as_str())
        .append_pair("uploaded", uploaded.as_str())
        .append_pair("event", request.event.as_str())
        .append_pair("ip_address", request.ip_address.as_str())
        .append_pair("key", key.as_str())
        .append_pair("num_want", num_want.as_str())
        .append_pair("port", port.as_str())
        .append_pair("no_peer_id", "0")
        .append_pair("compact", "1")
        .build()
}

/// The transports an announce can ride on, a closed set: anything else is
/// refused up front rather than silently ignored.
#[derive(Clone, Copy, Debug, PartialEq, Eq, Structural)]
pub enum TransportKind {
    Http,
    Https,
}

/// Picks the transport for a tracker URL scheme; schemes the client does not
/// implement fail explicitly.
pub fn transport_for_scheme(scheme: &str) -> (r: Result<TransportKind, TorrentError>)
    ensures
        scheme@ == "http"@ ==> r == Ok::<TransportKind, TorrentError>(TransportKind::Http),
        scheme@ == "https"@ ==> r == Ok::<TransportKind, TorrentError>(TransportKind::Https),
        scheme@ != "http"@ && scheme@ != "https"@ ==> r == Err::<TransportKind, TorrentError>(
            TorrentError::UnsupportedScheme,
        ),
{
    proof {
        reveal_strlit("http");
        reveal_strlit("https");
        assert("http"@.len() == 4);
        assert("https"@.len() == 5);
    }
    if str_eq(scheme, "http") {
        Ok(TransportKind::Http)
    } else if str_eq(scheme, "https") {
        Ok(TransportKind::Https)
    } else {
        Err(TorrentError::UnsupportedScheme)
    }
}

/// Relies on `str::eq` (via `==` on `&str`): string equality is equality of
/// the character sequences.
#[verifier::external_body]
fn str_eq(a: &str, b: &str) -> (r: bool)
    ensures
        r == (a@ == b@),
{
    a == b
}

/// What `reference` resolves to against `base` under the URL standard: a
/// function of the two strings alone. Its value is never written out here;
/// the trusted wrapper below ties it to the outside implementation.
pub uninterp spec fn joined_url(base: Seq<char>, reference: Seq<char>) -> Option<Seq<char>>;

/// Relies on `url::Url::parse` and `url::Url::join`: resolving a redirect
/// location against the announce URL depends on the two strings alone, and
/// fails exactly when either fails.
#[verifier::external_body]
pub fn resolve_location(base: &str, reference: &str) -> (r: Option<String>)
    ensures
        match r {
            Some(u) => joined_url(base@, reference@) == Some(u@),
            None => joined_url(base@, reference@) is None,
        },
{
    match url::Url::parse(base) {
        Ok(b) => match b.join(reference) {
            Ok(j) => Some(String::from_str(j.as_str())),
            Err(_) => None,
        },
        Err(_) => None,
    }
}

/// The most redirect hops one announce will follow before giving up, so a
/// hostile tracker cannot loop the client forever.
pub const MAX_REDIRECTS: u32 = 8;

/// A temporary-redirect status: the announce is re-sent to the resolved
/// location with the same parameters.
pub open spec fn is_temporary_redirect(status: u16) -> bool {
    status == 302 || status == 307
}

/// What to do with one HTTP response during an announce.
pub enum AnnounceStep {
    /// Re-issue the same request against this resolved URL.
    FollowRedirect(String),
    /// A success status: decode the body as the bencoded response.
    DecodeBody,
    /// Give up with this error.
    Fail(TorrentError),
}

/// Decides the next move after one HTTP round-trip: follow a temporary
/// redirect — bounded, with a resolvable `Location` — decode a success body,
/// and fail on anything else.
pub fn announce_step(status: u16, location: &Option<String>, redirects: u32, base_url: &str) -> (r:
    AnnounceStep)
    ensures
        is_temporary_redirect(status) && redirects >= MAX_REDIRECTS ==> r == AnnounceStep::Fail(
            TorrentError::TransportError,
        ),
        is_temporary_redirect(status) && redirects < MAX_REDIRECTS ==> match location {
            None => r == AnnounceStep::Fail(TorrentError::TransportError),
            Some(loc) => match joined_url(base_url@, loc@) {
                Some(u) => r matches AnnounceStep::FollowRedirect(nu) && nu@ == u,
                None => r == AnnounceStep::Fail(TorrentError::TransportError),
            },
        },
        !is_temporary_redirect(status) && status == 200 ==> r is DecodeBody,
        !is_temporary_redirect(status) && status != 200 ==> r == AnnounceStep::Fail(
            TorrentError::TransportError,
        ),
{
    if status == 302 || status == 307 {
        if redirects >= MAX_REDIRECTS {
            return AnnounceStep::Fail(TorrentError::TransportError);
        }
        match location {
            None => AnnounceStep::Fail(TorrentError::TransportError),
            Some(loc) => match resolve_location(base_url, loc.as_str()) {
                Some(u) => AnnounceStep::FollowRedirect(u),
                None => AnnounceStep::Fail(TorrentError::TransportError),
            },
        }
    } else if status == 200 {
        AnnounceStep::DecodeBody
    } else {
        AnnounceStep::Fail(TorrentError::TransportError)
    }
}

} // verus!
