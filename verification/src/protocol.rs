//! The opening handshake: key generation, the accept-key computation, the
//! client request builder, and the checks both sides run on what they read.
use vstd::prelude::*;

use crate::errors::WsError;

verus! {

use vstd::string::{StringSliceAdditionalSpecFns, StrSliceExecFns, StringExecFns};
use vstd::utf8::encode_utf8;

/// Close status classes of RFC 6455 section 7.4.
#[derive(Debug, Clone, Copy, PartialEq, Eq, Structural)]
pub enum StatusCode {
    /// 1000, a normal closure
    C1000,
    /// 1001, the endpoint is going away
    C1001,
    /// 1002, a protocol error
    C1002,
    /// 1003, a data type the endpoint cannot accept
    C1003,
    /// 1004, reserved
    C1004,
    /// 1005, reserved: no status code was present
    C1005,
    /// 1006, reserved: the connection closed abnormally
    C1006,
    /// 1007, data inconsistent with the message type
    C1007,
    /// 1008, a message that violates a policy
    C1008,
    /// 1009, a message too big to process
    C1009,
    /// 1010, the server did not negotiate a required extension
    C1010,
    /// 1011, an unexpected server condition
    C1011,
    /// 1015, reserved: the tls handshake failed
    C1015,
    /// the unused range below 1000
    C0_999,
    /// the reserved protocol range 1000-2999
    C1000_2999,
    /// the registered range 3000-3999
    C3000_3999,
    /// the private range 4000-4999
    C4000_4999,
    /// anything else
    Unknown,
}

/// Whether the connection runs over plain tcp or tls.
#[derive(Debug, Clone, Copy, PartialEq, Eq, Structural)]
pub enum Mode {
    /// plain tcp, scheme `ws`
    WS,
    /// tls, scheme `wss`
    WSS,
}

impl Mode {
    /// The port used when the url names none.
    pub fn default_port(&self) -> (r: u16)
        ensures
            r == if *self is WS {
                80u16
            } else {
                443u16
            },
    {
        match self {
            Mode::WS => 80,
            Mode::WSS => 443,
        }
    }
}

/// A parsed HTTP response head: what the client reads back during the
/// upgrade. Stands for the outside world's response type as plain values.
#[derive(Debug, Clone)]
pub struct HandshakeResponse {
    /// the status code
    pub code: u16,
    /// the reason phrase
    pub reason: String,
    /// the headers, in the order they appeared
    pub headers: Vec<(String, String)>,
}

/// A parsed HTTP request head: what the server reads during the upgrade.
#[derive(Debug, Clone)]
pub struct HandshakeRequest {
    /// the request method
    pub method: String,
    /// the request path
    pub path: String,
    /// the headers, in the order they appeared
    pub headers: Vec<(String, String)>,
}

/// A websocket url, held as plain values: scheme, host, optional port, and
/// the path with any query.
#[derive(Debug, Clone)]
pub struct Uri {
    /// the scheme, `ws` or `wss`
    pub scheme: String,
    /// the host name
    pub host: String,
    /// the port, when one is spelled out
    pub port: Option<u16>,
    /// path and query, starting with `/`; empty stands for `/`
    pub path_and_query: String,
}

/// The utf-8 bytes of a string, as specifications speak of them.
pub open spec fn sb(s: &str) -> Seq<u8> {
    encode_utf8(s@)
}

/// An ascii upper-case letter folded to lower case; everything else kept.
pub open spec fn lower_byte(b: u8) -> u8 {
    if 65 <= b <= 90 {
        (b + 32) as u8
    } else {
        b
    }
}

/// A byte sequence folded to ascii lower case.
pub open spec fn lower_bytes(s: Seq<u8>) -> Seq<u8> {
    s.map_values(|b: u8| lower_byte(b))
}

/// Whether two byte slices are equal.
pub fn eq_bytes(a: &[u8], b: &[u8]) -> (r: bool)
    ensures
        r == (a@ == b@),
{
    if a.len() != b.len() {
        proof {
            assert(a@.len() != b@.len());
        }
        return false;
    }
    let n = a.len();
    let mut i: usize = 0;
    while i < n
        invariant
            i <= n,
            n == a@.len() && n == b@.len(),
            forall|j: int| 0 <= j < i ==> a@[j] == b@[j],
        decreases n - i,
    {
        if a[i] != b[i] {
            return false;
        }
        i += 1;
    }
    proof {
        assert(a@ =~= b@);
    }
    true
}

/// Whether two byte slices are equal up to ascii case.
pub fn eq_ignore_ascii_case(a: &[u8], b: &[u8]) -> (r: bool)
    ensures
        r == (lower_bytes(a@) == lower_bytes(b@)),
{
    if a.len() != b.len() {
        proof {
            assert(lower_bytes(a@).len() != lower_bytes(b@).len());
        }
        return false;
    }
    let n = a.len();
    let mut i: usize = 0;
    while i < n
        invariant
            i <= n,
            n == a@.len() && n == b@.len(),
            forall|j: int| 0 <= j < i ==> lower_byte(a@[j]) == lower_byte(b@[j]),
        decreases n - i,
    {
        let ab = a[i];
        let bb = b[i];
        let al: u8 = if 65 <= ab && ab <= 90 {
            ab + 32
        } else {
            ab
        };
        let bl: u8 = if 65 <= bb && bb <= 90 {
            bb + 32
        } else {
            bb
        };
        if al != bl {
            proof {
                assert(lower_bytes(a@)[i as int] != lower_bytes(b@)[i as int]);
            }
            return false;
        }
        i += 1;
    }
    proof {
        assert(lower_bytes(a@) =~= lower_bytes(b@));
    }
    true
}

/// True when the four bytes ending at `i` (exclusive) are CR LF CR LF.
pub open spec fn header_end_at(s: Seq<u8>, i: int) -> bool {
    &&& 4 <= i <= s.len()
    &&& s[i - 4] == 13u8
    &&& s[i - 3] == 10u8
    &&& s[i - 2] == 13u8
    &&& s[i - 1] == 10u8
}

/// Position just past the first blank line, where the HTTP head ends and
/// the frame stream begins; `None` while no blank line has arrived.
pub fn find_header_end(bytes: &[u8]) -> (r: Option<usize>)
    ensures
        match r {
            Some(e) => header_end_at(bytes@, e as int) && (forall|j: int|
                4 <= j < e ==> !header_end_at(bytes@, j)) && first_header_end(bytes@) == Some(
                e as int,
            ),
            None => (forall|j: int| 4 <= j <= bytes@.len() ==> !header_end_at(bytes@, j))
                && first_header_end(bytes@) is None,
        },
{
    let n = bytes.len();
    if n < 4 {
        return None;
    }
    let mut i: usize = 0;
    while i <= n - 4
        invariant
            n == bytes@.len(),
            4 <= n,
            i <= n - 3,
            forall|j: int| 4 <= j < i + 4 ==> !header_end_at(bytes@, j),
        decreases n - i,
    {
        if bytes[i] == 13 && bytes[i + 1] == 10 && bytes[i + 2] == 13 && bytes[i + 3] == 10 {
            proof {
                lemma_fhe_some(bytes@, 4, i + 4);
            }
            return Some(i + 4);
        }
        i += 1;
    }
    proof {
        lemma_fhe_none(bytes@, 4);
    }
    None
}

/// The characters of one header pair, as specifications speak of them.
pub open spec fn header_chars(h: (String, String)) -> (Seq<char>, Seq<char>) {
    (h.0@, h.1@)
}

/// The character view of a header list.
pub open spec fn headers_deep(hs: Seq<(String, String)>) -> Seq<(Seq<char>, Seq<char>)> {
    hs.map_values(|h: (String, String)| header_chars(h))
}

/// Position just past the first blank line at or after `i`, or nothing.
pub open spec fn first_header_end_from(s: Seq<u8>, i: int) -> Option<int>
    decreases s.len() + 1 - i,
    when 4 <= i <= s.len() + 1
{
    if i > s.len() {
        None
    } else if header_end_at(s, i) {
        Some(i)
    } else {
        first_header_end_from(s, i + 1)
    }
}

/// Position just past the first blank line, where the HTTP head ends and
/// the frame stream begins, or nothing while no blank line has arrived.
pub open spec fn first_header_end(s: Seq<u8>) -> Option<int> {
    if s.len() < 4 {
        None
    } else {
        first_header_end_from(s, 4)
    }
}

/// A position past a blank line with no earlier one is the first.
proof fn lemma_fhe_some(s: Seq<u8>, i: int, e: int)
    requires
        4 <= i <= e <= s.len(),
        header_end_at(s, e),
        forall|j: int| i <= j < e ==> !header_end_at(s, j),
    ensures
        first_header_end_from(s, i) == Some(e),
    decreases e - i,
{
    if i < e {
        lemma_fhe_some(s, i + 1, e);
    }
}

/// With no blank line anywhere from `i` on, there is no first one.
proof fn lemma_fhe_none(s: Seq<u8>, i: int)
    requires
        4 <= i <= s.len() + 1,
        forall|j: int| i <= j <= s.len() ==> !header_end_at(s, j),
    ensures
        first_header_end_from(s, i) is None,
    decreases s.len() + 1 - i,
{
    if i <= s.len() {
        lemma_fhe_none(s, i + 1);
    }
}

/// The fixed handshake GUID of RFC 6455, as bytes.
pub open spec fn guid_bytes() -> Seq<u8> {
    sb("258EAFA5-E914-47DA-95CA-C5AB0DC85B11")
}

/// The fixed handshake GUID of RFC 6455.
pub fn guid_vec() -> (r: Vec<u8>)
    ensures
        r@ == guid_bytes(),
{
    "258EAFA5-E914-47DA-95CA-C5AB0DC85B11".as_bytes_vec()
}

/// The SHA-1 digest of a byte sequence, named; what it is on given bytes
/// only the hash itself says.
pub uninterp spec fn sha1_of(bytes: Seq<u8>) -> Seq<u8>;

/// Relies on sha1::Sha1 through the Digest trait: a 20-byte digest that is
/// a function of the input bytes alone.
#[verifier::external_body]
fn sha1_digest(input: &Vec<u8>) -> (r: Vec<u8>)
    ensures
        r@ == sha1_of(input@),
        r@.len() == 20,
{
    <sha1::Sha1 as sha1::Digest>::digest(input.as_slice()).to_vec()
}

/// The standard padded base64 encoding of a byte sequence, named.
pub uninterp spec fn base64_of(bytes: Seq<u8>) -> Seq<char>;

/// Relies on base64's STANDARD engine: a padded encoding, 4 characters for
/// every 3 bytes begun, a function of the input bytes alone.
#[verifier::external_body]
fn base64_encode(input: &Vec<u8>) -> (r: String)
    requires
        input@.len() <= 0x1000_0000,
    ensures
        r@ == base64_of(input@),
        r@.len() == 4 * ((input@.len() + 2) / 3),
{
    base64::Engine::encode(&base64::engine::general_purpose::STANDARD, input.as_slice())
}

/// Relies on rand::random: sixteen bytes from the thread-local
/// cryptographic generator. Nothing is promised of their values.
#[verifier::external_body]
fn random_key_bytes() -> (r: Vec<u8>)
    ensures
        r@.len() == 16,
{
    rand::random::<[u8; 16]>().to_vec()
}

/// A fresh Sec-WebSocket-Key: sixteen random bytes, base64-encoded to a
/// 24-character string.
pub fn gen_key() -> (r: String)
    ensures
        r@.len() == 24,
        exists|b: Seq<u8>| b.len() == 16 && r@ == base64_of(b),
{
    let bytes = random_key_bytes();
    let r = base64_encode(&bytes);
    proof {
        assert(bytes@.len() == 16 && r@ == base64_of(bytes@));
    }
    r
}

/// What the server is expected to answer for a given key: the base64 of the
/// SHA-1 of the key followed by the handshake GUID.
pub open spec fn accept_key_of(key_bytes: Seq<u8>) -> Seq<char> {
    base64_of(sha1_of(key_bytes + guid_bytes()))
}

/// Compute the Sec-WebSocket-Accept value for a key: base64(SHA1(key ‖ GUID)).
pub fn cal_accept_key(source: &str) -> (r: String)
    ensures
        r@ == accept_key_of(source.spec_bytes()),
        r@.len() == 28,
{
    let mut input = source.as_bytes_vec();
    let mut guid = guid_vec();
    input.append(&mut guid);
    assert(input@ =~= source.spec_bytes() + guid_bytes());
    let digest = sha1_digest(&input);
    base64_encode(&digest)
}


/// What httparse reads out of a response head: the status code, the reason
/// phrase and the headers in order, a function of the bytes alone; nothing
/// when the bytes do not parse.
pub uninterp spec fn http_response_of(bytes: Seq<u8>) -> Option<
    (u16, Seq<char>, Seq<(Seq<char>, Seq<char>)>),
>;

/// Relies on httparse::Response::parse: splits an HTTP response head into
/// status code, reason and headers, which are handed over as plain values;
/// the outcome is a function of the bytes alone, named [`http_response_of`].
/// Nothing further is assumed of how it parses.
#[verifier::external_body]
fn parse_http_response(bytes: &[u8]) -> (r: Option<HandshakeResponse>)
    ensures
        r is Some <==> http_response_of(bytes@) is Some,
        r matches Some(resp) ==> ({
            let t = http_response_of(bytes@)->Some_0;
            resp.code == t.0 && resp.reason@ == t.1 && headers_deep(resp.headers@) == t.2
        }),
{
    let mut headers = [httparse::EMPTY_HEADER; 64];
    let mut resp = httparse::Response::new(&mut headers);
    if resp.parse(bytes).is_err() {
        return None;
    }
    let code = match resp.code {
        Some(c) => c,
        None => return None,
    };
    let mut hs: Vec<(String, String)> = Vec::new();
    for h in resp.headers.iter() {
        hs.push((h.name.to_string(), String::from_utf8_lossy(h.value).to_string()));
    }
    Some(HandshakeResponse { code, reason: resp.reason.unwrap_or("").to_string(), headers: hs })
}

/// What httparse reads out of a request head: the method, the path and the
/// headers in order, a function of the bytes alone; nothing when the bytes
/// do not parse.
pub uninterp spec fn http_request_of(bytes: Seq<u8>) -> Option<
    (Seq<char>, Seq<char>, Seq<(Seq<char>, Seq<char>)>),
>;

/// Relies on httparse::Request::parse: splits an HTTP request head into
/// method, path and headers, which are handed over as plain values; the
/// outcome is a function of the bytes alone, named [`http_request_of`].
/// Nothing further is assumed of how it parses.
#[verifier::external_body]
fn parse_http_request(bytes: &[u8]) -> (r: Option<HandshakeRequest>)
    ensures
        r is Some <==> http_request_of(bytes@) is Some,
        r matches Some(req) ==> ({
            let t = http_request_of(bytes@)->Some_0;
            req.method@ == t.0 && req.path@ == t.1 && headers_deep(req.headers@) == t.2
        }),
{
    let mut headers = [httparse::EMPTY_HEADER; 64];
    let mut req = httparse::Request::new(&mut headers);
    if req.parse(bytes).is_err() {
        return None;
    }
    let mut hs: Vec<(String, String)> = Vec::new();
    for h in req.headers.iter() {
        hs.push((h.name.to_string(), String::from_utf8_lossy(h.value).to_string()));
    }
    Some(HandshakeRequest {
        method: req.method.unwrap_or("").to_string(),
        path: req.path.unwrap_or("").to_string(),
        headers: hs,
    })
}

/// Whether a header name is `name`, compared without regard to ascii case.
pub open spec fn header_is(h: (String, String), name: &str) -> bool {
    lower_bytes(encode_utf8(h.0@)) == lower_bytes(sb(name))
}

/// True when a response head carries status 101 and every header named
/// Sec-WebSocket-Accept holds exactly the accept key computed from the key
/// this client sent; over the character view of the head.
pub open spec fn resp_check_ok_view(
    key: Seq<u8>,
    code: u16,
    headers: Seq<(Seq<char>, Seq<char>)>,
) -> bool {
    &&& code == 101
    &&& forall|i: int|
        0 <= i < headers.len() && lower_bytes(encode_utf8((#[trigger] headers[i]).0))
            == lower_bytes(sb("sec-websocket-accept")) ==> encode_utf8(headers[i].1)
            == encode_utf8(accept_key_of(key))
}

/// True when the response carries status 101 and every header named
/// Sec-WebSocket-Accept holds exactly the accept key computed from the key
/// this client sent.
pub open spec fn resp_check_ok(key: Seq<u8>, resp: HandshakeResponse) -> bool {
    resp_check_ok_view(key, resp.code, headers_deep(resp.headers@))
}

/// Check a parsed upgrade response against the key that was sent: the
/// status must be 101 and any Sec-WebSocket-Accept header must hold
/// base64(SHA1(key ‖ GUID)).
pub fn standard_handshake_resp_check(key: &str, resp: &HandshakeResponse) -> (r: Result<
    (),
    WsError,
>)
    ensures
        r is Ok <==> resp_check_ok(key.spec_bytes(), *resp),
        r matches Err(e) ==> e matches WsError::HandShakeFailed(_),
{
    if resp.code != 101 {
        return Err(WsError::HandShakeFailed(String::from_str(
            "expected status 101 switching protocols",
        )));
    }
    let expect = cal_accept_key(key);
    let n = resp.headers.len();
    let mut i: usize = 0;
    while i < n
        invariant
            i <= n,
            n == resp.headers@.len(),
            expect@ == accept_key_of(key.spec_bytes()),
            forall|j: int|
                0 <= j < i && header_is(#[trigger] resp.headers@[j], "sec-websocket-accept")
                    ==> encode_utf8(resp.headers@[j].1@) == encode_utf8(
                    accept_key_of(key.spec_bytes()),
                ),
        decreases n - i,
    {
        let h = &resp.headers[i];
        if eq_ignore_ascii_case(h.0.as_str().as_bytes(), "sec-websocket-accept".as_bytes()) {
            if !eq_bytes(h.1.as_str().as_bytes(), expect.as_str().as_bytes()) {
                proof {
                    let hd = headers_deep(resp.headers@);
                    assert(hd[i as int] == header_chars(resp.headers@[i as int]));
                    assert(!resp_check_ok_view(key.spec_bytes(), resp.code, hd));
                }
                return Err(WsError::HandShakeFailed(String::from_str("mismatched accept key")));
            }
        }
        i += 1;
    }
    proof {
        let hd = headers_deep(resp.headers@);
        assert forall|j: int|
            0 <= j < hd.len() && lower_bytes(encode_utf8((#[trigger] hd[j]).0)) == lower_bytes(
                sb("sec-websocket-accept"),
            ) implies encode_utf8(hd[j].1) == encode_utf8(
            accept_key_of(key.spec_bytes()),
        ) by {
            assert(hd[j] == header_chars(resp.headers@[j]));
            assert(header_is(resp.headers@[j], "sec-websocket-accept"));
        }
    }
    Ok(())
}

/// Whether a header of the character view carries the given name, without
/// regard to ascii case.
pub open spec fn view_header_is(h: (Seq<char>, Seq<char>), name: &str) -> bool {
    lower_bytes(encode_utf8(h.0)) == lower_bytes(sb(name))
}

/// What the server checks in an upgrade request head, and what it learns
/// from it: the head carries `Upgrade: websocket` (without regard to case)
/// and a non-empty Sec-WebSocket-Key, one of which is the key; over the
/// character view of the head.
pub open spec fn req_key_of_view(hs: Seq<(Seq<char>, Seq<char>)>) -> Option<Seq<char>> {
    if (exists|i: int|
        0 <= i < hs.len() && view_header_is(#[trigger] hs[i], "upgrade") && lower_bytes(
            encode_utf8(hs[i].1),
        ) == lower_bytes(sb("websocket"))) && (exists|i: int|
        0 <= i < hs.len() && view_header_is(#[trigger] hs[i], "sec-websocket-key")
            && hs[i].1.len() > 0) {
        let k = choose|i: int|
            0 <= i < hs.len() && view_header_is(#[trigger] hs[i], "sec-websocket-key")
                && hs[i].1.len() > 0;
        Some(hs[k].1)
    } else {
        None
    }
}

/// What the server checks in an upgrade request, and what it learns from
/// it: the request carries `Upgrade: websocket` (without regard to case)
/// and a non-empty Sec-WebSocket-Key, one of which is the key.
pub open spec fn req_key_of(req: HandshakeRequest) -> Option<Seq<char>> {
    req_key_of_view(headers_deep(req.headers@))
}

/// Check a parsed upgrade request: it must carry `Upgrade: websocket` and a
/// non-empty Sec-WebSocket-Key; on success the accept key computed from one
/// such key header is returned.
pub fn standard_handshake_req_check(req: &HandshakeRequest) -> (r: Result<String, WsError>)
    ensures
        r is Ok <==> req_key_of(*req) is Some,
        r matches Ok(a) ==> exists|i: int|
            0 <= i < req.headers@.len() && header_is(
                #[trigger] req.headers@[i],
                "sec-websocket-key",
            ) && req.headers@[i].1@.len() > 0 && a@ == accept_key_of(
                encode_utf8(req.headers@[i].1@),
            ),
{
    let n = req.headers.len();
    let mut upgrade_ok = false;
    let mut key_at: Option<usize> = None;
    let mut i: usize = 0;
    while i < n
        invariant
            i <= n,
            n == req.headers@.len(),
            upgrade_ok <==> exists|j: int|
                0 <= j < i && header_is(#[trigger] req.headers@[j], "upgrade") && lower_bytes(
                    encode_utf8(req.headers@[j].1@),
                ) == lower_bytes(sb("websocket")),
            match key_at {
                Some(k) => k < i && header_is(req.headers@[k as int], "sec-websocket-key")
                    && req.headers@[k as int].1@.len() > 0,
                None => forall|j: int|
                    0 <= j < i ==> !(header_is(#[trigger] req.headers@[j], "sec-websocket-key")
                        && req.headers@[j].1@.len() > 0),
            },
        decreases n - i,
    {
        let h = &req.headers[i];
        if eq_ignore_ascii_case(h.0.as_str().as_bytes(), "upgrade".as_bytes())
            && eq_ignore_ascii_case(h.1.as_str().as_bytes(), "websocket".as_bytes()) {
            upgrade_ok = true;
        }
        if h.1.as_str().as_bytes().len() > 0 && eq_ignore_ascii_case(
            h.0.as_str().as_bytes(),
            "sec-websocket-key".as_bytes(),
        ) {
            proof {
                if h.1@.len() == 0 {
                    assert(encode_utf8(h.1@) =~= Seq::<u8>::empty());
                }
            }
            key_at = Some(i);
        }
        i += 1;
    }
    proof {
        let hd = headers_deep(req.headers@);
        assert forall|j: int| 0 <= j < hd.len() implies (view_header_is(
            #[trigger] hd[j],
            "upgrade",
        ) == header_is(req.headers@[j], "upgrade")) && (view_header_is(hd[j], "sec-websocket-key")
            == header_is(req.headers@[j], "sec-websocket-key")) && hd[j].1 == req.headers@[j].1@ by {
            assert(hd[j] == header_chars(req.headers@[j]));
        }
    }
    if !upgrade_ok {
        return Err(WsError::HandShakeFailed(String::from_str("missing upgrade header")));
    }
    match key_at {
        Some(k) => {
            let key = &req.headers[k].1;
            let accept = cal_accept_key(key.as_str());
            proof {
                let hd = headers_deep(req.headers@);
                let uw = choose|j: int|
                    0 <= j < n && header_is(#[trigger] req.headers@[j], "upgrade") && lower_bytes(
                        encode_utf8(req.headers@[j].1@),
                    ) == lower_bytes(sb("websocket"));
                assert(hd[uw] == header_chars(req.headers@[uw]));
                assert(view_header_is(hd[uw], "upgrade") && lower_bytes(encode_utf8(hd[uw].1))
                    == lower_bytes(sb("websocket")));
                assert(view_header_is(hd[k as int], "sec-websocket-key") && hd[k as int].1.len()
                    > 0);
                assert(req_key_of_view(hd) is Some);
            }
            Ok(accept)
        },
        None => Err(WsError::HandShakeFailed(String::from_str("missing sec-websocket-key"))),
    }
}

/// One serialised header line: the name, a colon and a space, the value,
/// then CR LF.
pub open spec fn header_line(name: Seq<u8>, value: Seq<u8>) -> Seq<u8> {
    name + sb(": ") + value + sb("\r\n")
}

/// The serialised header block: every line in order.
pub open spec fn header_block(hs: Seq<(Seq<u8>, Seq<u8>)>) -> Seq<u8>
    decreases hs.len(),
{
    if hs.len() == 0 {
        Seq::empty()
    } else {
        header_block(hs.drop_last()) + header_line(hs.last().0, hs.last().1)
    }
}

/// The byte pairs a list of name/value buffers stands for.
pub open spec fn pairs_view(v: Seq<(Vec<u8>, Vec<u8>)>) -> Seq<(Seq<u8>, Seq<u8>)> {
    v.map_values(|p: (Vec<u8>, Vec<u8>)| (p.0@, p.1@))
}

/// A serialised GET request head: the request line, the header block and
/// the final blank line.
pub open spec fn request_head(path: Seq<u8>, hs: Seq<(Seq<u8>, Seq<u8>)>) -> Seq<u8> {
    sb("GET ") + path + sb(" HTTP/1.1\r\n") + header_block(hs) + sb("\r\n")
}

/// Serialise a GET request head from a path and a list of headers.
pub fn assemble_request(path: &str, headers: &Vec<(Vec<u8>, Vec<u8>)>) -> (r: Vec<u8>)
    ensures
        r@ == request_head(path.spec_bytes(), pairs_view(headers@)),
{
    let mut out: Vec<u8> = Vec::new();
    out.extend_from_slice("GET ".as_bytes());
    out.extend_from_slice(path.as_bytes());
    out.extend_from_slice(" HTTP/1.1\r\n".as_bytes());
    assert(out@ =~= sb("GET ") + path.spec_bytes() + sb(" HTTP/1.1\r\n"));
    let ghost head0 = out@;
    let n = headers.len();
    let mut i: usize = 0;
    while i < n
        invariant
            i <= n,
            n == headers@.len(),
            out@ == head0 + header_block(pairs_view(headers@).subrange(0, i as int)),
        decreases n - i,
    {
        let h = &headers[i];
        out.extend_from_slice(h.0.as_slice());
        out.extend_from_slice(": ".as_bytes());
        out.extend_from_slice(h.1.as_slice());
        out.extend_from_slice("\r\n".as_bytes());
        proof {
            let hv = pairs_view(headers@);
            assert(hv.subrange(0, i + 1).drop_last() =~= hv.subrange(0, i as int));
            assert(hv.subrange(0, i + 1).last() == hv[i as int]);
            assert(out@ =~= head0 + header_block(hv.subrange(0, i + 1)));
        }
        i += 1;
    }
    out.extend_from_slice("\r\n".as_bytes());
    proof {
        assert(pairs_view(headers@).subrange(0, n as int) =~= pairs_view(headers@));
        assert(out@ =~= request_head(path.spec_bytes(), pairs_view(headers@)));
    }
    out
}

/// The decimal digits of a number, most significant first.
pub open spec fn dec_bytes(n: int) -> Seq<u8>
    decreases n,
{
    if n < 10 {
        seq![(48 + n) as u8]
    } else {
        dec_bytes(n / 10) + seq![(48 + n % 10) as u8]
    }
}

/// Append the decimal digits of a number.
pub fn push_dec(v: u16, out: &mut Vec<u8>)
    ensures
        final(out)@ == old(out)@ + dec_bytes(v as int),
    decreases v,
{
    if v < 10 {
        out.push(48 + v as u8);
        assert(out@ =~= old(out)@ + dec_bytes(v as int));
    } else {
        push_dec(v / 10, out);
        out.push(48 + (v % 10) as u8);
        assert(out@ =~= old(out)@ + dec_bytes(v as int));
    }
}

/// A list of byte strings joined with `, `.
pub open spec fn joined_bytes(parts: Seq<Seq<u8>>) -> Seq<u8>
    decreases parts.len(),
{
    if parts.len() == 0 {
        Seq::empty()
    } else if parts.len() == 1 {
        parts[0]
    } else {
        joined_bytes(parts.drop_last()) + sb(", ") + parts.last()
    }
}

/// Join strings with `, `, as list-valued handshake headers are written.
pub fn join_with_comma(parts: &Vec<String>) -> (r: Vec<u8>)
    ensures
        r@ == joined_bytes(parts@.map_values(|s: String| encode_utf8(s@))),
{
    let mut out: Vec<u8> = Vec::new();
    let n = parts.len();
    let mut i: usize = 0;
    while i < n
        invariant
            i <= n,
            n == parts@.len(),
            out@ == joined_bytes(
                parts@.map_values(|s: String| encode_utf8(s@)).subrange(0, i as int),
            ),
        decreases n - i,
    {
        if i > 0 {
            out.extend_from_slice(", ".as_bytes());
        }
        out.extend_from_slice(parts[i].as_str().as_bytes());
        proof {
            let pv = parts@.map_values(|s: String| encode_utf8(s@));
            assert(pv.subrange(0, i + 1).drop_last() =~= pv.subrange(0, i as int));
            assert(pv.subrange(0, i + 1).last() == pv[i as int]);
            if i == 0 {
                assert(out@ =~= pv[0]);
                assert(out@ =~= joined_bytes(pv.subrange(0, 1)));
            } else {
                assert(out@ =~= joined_bytes(pv.subrange(0, i + 1)));
            }
        }
        i += 1;
    }
    proof {
        let pv = parts@.map_values(|s: String| encode_utf8(s@));
        assert(pv.subrange(0, n as int) =~= pv);
    }
    out
}

/// Accept only the websocket schemes, without regard to ascii case.
pub fn check_uri(uri: &Uri) -> (r: Result<Mode, WsError>)
    ensures
        (r matches Ok(m) && m is WS) ==> lower_bytes(encode_utf8(uri.scheme@)) == lower_bytes(
            sb("ws"),
        ),
        (r matches Ok(m) && m is WSS) ==> lower_bytes(encode_utf8(uri.scheme@)) == lower_bytes(
            sb("wss"),
        ),
        r is Err <==> (lower_bytes(encode_utf8(uri.scheme@)) != lower_bytes(sb("ws"))
            && lower_bytes(encode_utf8(uri.scheme@)) != lower_bytes(sb("wss"))),
        r matches Err(e) ==> e matches WsError::InvalidUri(_),
{
    if eq_ignore_ascii_case(uri.scheme.as_str().as_bytes(), "ws".as_bytes()) {
        Ok(Mode::WS)
    } else if eq_ignore_ascii_case(uri.scheme.as_str().as_bytes(), "wss".as_bytes()) {
        Ok(Mode::WSS)
    } else {
        Err(WsError::InvalidUri(String::from_str("unknown scheme")))
    }
}


/// The headers of a client upgrade request: Host, the upgrade pair, the
/// key, the version, the optional protocol and extension lists, then any
/// caller-supplied headers.
pub open spec fn client_headers(
    host: Seq<u8>,
    port: int,
    key: Seq<u8>,
    version: int,
    protocols: Seq<u8>,
    extensions: Seq<u8>,
    extras: Seq<(Seq<u8>, Seq<u8>)>,
) -> Seq<(Seq<u8>, Seq<u8>)> {
    let base = seq![
        (sb("Host"), host + sb(":") + dec_bytes(port)),
        (sb("Upgrade"), sb("websocket")),
        (sb("Connection"), sb("Upgrade")),
        (sb("Sec-WebSocket-Key"), key),
        (sb("Sec-WebSocket-Version"), dec_bytes(version)),
    ];
    let with_p = if protocols.len() > 0 {
        base.push((sb("Sec-WebSocket-Protocol"), protocols))
    } else {
        base
    };
    let with_e = if extensions.len() > 0 {
        with_p.push((sb("Sec-WebSocket-Extensions"), extensions))
    } else {
        with_p
    };
    with_e + extras
}

/// The request path actually written: `/` when the url gives none.
pub open spec fn effective_path(p: Seq<char>) -> Seq<u8> {
    if p.len() == 0 {
        sb("/")
    } else {
        encode_utf8(p)
    }
}

/// Build the serialised client upgrade request for the given url, key and
/// header fields, defaulting the port by scheme and the path to `/`.
#[verifier::rlimit(60)]
pub fn prepare_handshake_request(
    uri: &Uri,
    mode: Mode,
    key: &str,
    version: u16,
    protocols: &[u8],
    extensions: &[u8],
    extras: &Vec<(String, String)>,
) -> (r: Vec<u8>)
    ensures
        r@ == request_head(
            effective_path(uri.path_and_query@),
            client_headers(
                encode_utf8(uri.host@),
                match uri.port {
                    Some(p) => p as int,
                    None => if mode is WS {
                        80int
                    } else {
                        443int
                    },
                },
                key.spec_bytes(),
                version as int,
                protocols@,
                extensions@,
                extras@.map_values(|h: (String, String)| (encode_utf8(h.0@), encode_utf8(h.1@))),
            ),
        ),
{
    let port: u16 = match uri.port {
        Some(p) => p,
        None => mode.default_port(),
    };
    let mut host_val = uri.host.as_str().as_bytes_vec();
    host_val.extend_from_slice(":".as_bytes());
    push_dec(port, &mut host_val);
    assert(host_val@ =~= encode_utf8(uri.host@) + sb(":") + dec_bytes(port as int));
    let mut hs: Vec<(Vec<u8>, Vec<u8>)> = Vec::new();
    hs.push(("Host".as_bytes_vec(), host_val));
    hs.push(("Upgrade".as_bytes_vec(), "websocket".as_bytes_vec()));
    hs.push(("Connection".as_bytes_vec(), "Upgrade".as_bytes_vec()));
    hs.push(("Sec-WebSocket-Key".as_bytes_vec(), key.as_bytes_vec()));
    let mut version_val: Vec<u8> = Vec::new();
    push_dec(version, &mut version_val);
    hs.push(("Sec-WebSocket-Version".as_bytes_vec(), version_val));
    if protocols.len() > 0 {
        hs.push(("Sec-WebSocket-Protocol".as_bytes_vec(), vstd::slice::slice_to_vec(protocols)));
    }
    if extensions.len() > 0 {
        hs.push(("Sec-WebSocket-Extensions".as_bytes_vec(), vstd::slice::slice_to_vec(extensions)));
    }
    let ghost fixed = pairs_view(hs@);
    let ghost fixed_len = hs@.len();
    let ghost hs_fixed = hs@;
    let n = extras.len();
    let mut i: usize = 0;
    while i < n
        invariant
            i <= n,
            n == extras@.len(),
            hs@.len() == fixed_len + i,
            forall|j: int| 0 <= j < fixed_len ==> hs@[j] == hs_fixed[j],
            forall|j: int|
                0 <= j < i ==> (#[trigger] hs@[fixed_len + j]).0@ == encode_utf8(extras@[j].0@)
                    && hs@[fixed_len + j].1@ == encode_utf8(extras@[j].1@),
        decreases n - i,
    {
        let name = extras[i].0.as_str().as_bytes_vec();
        let value = extras[i].1.as_str().as_bytes_vec();
        hs.push((name, value));
        i += 1;
    }
    let path: &str = if uri.path_and_query.as_str().as_bytes().len() == 0 {
        proof {
            if uri.path_and_query@.len() != 0 {
                assert(encode_utf8(uri.path_and_query@).len() != 0) by {
                    vstd::utf8::encode_utf8_valid_utf8(uri.path_and_query@);
                }
            }
        }
        "/"
    } else {
        uri.path_and_query.as_str()
    };
    let r = assemble_request(path, &hs);
    proof {
        let ev = extras@.map_values(|h: (String, String)| (encode_utf8(h.0@), encode_utf8(h.1@)));
        let want = client_headers(
            encode_utf8(uri.host@),
            match uri.port {
                Some(p) => p as int,
                None => if mode is WS {
                    80int
                } else {
                    443int
                },
            },
            key.spec_bytes(),
            version as int,
            protocols@,
            extensions@,
            ev,
        );
        let base = seq![
            (sb("Host"), encode_utf8(uri.host@) + sb(":") + dec_bytes(
                match uri.port {
                    Some(p) => p as int,
                    None => if mode is WS {
                        80int
                    } else {
                        443int
                    },
                },
            )),
            (sb("Upgrade"), sb("websocket")),
            (sb("Connection"), sb("Upgrade")),
            (sb("Sec-WebSocket-Key"), key.spec_bytes()),
            (sb("Sec-WebSocket-Version"), dec_bytes(version as int)),
        ];
        let with_p = if protocols@.len() > 0 {
            base.push((sb("Sec-WebSocket-Protocol"), protocols@))
        } else {
            base
        };
        let with_e = if extensions@.len() > 0 {
            with_p.push((sb("Sec-WebSocket-Extensions"), extensions@))
        } else {
            with_p
        };
        assert(want == with_e + ev);
        assert(fixed_len == with_e.len());
        assert forall|j: int| 0 <= j < hs@.len() implies #[trigger] pairs_view(hs@)[j] == want[j] by {
            assert(pairs_view(hs@)[j] == (hs@[j].0@, hs@[j].1@));
            if j < fixed_len {
                assert(hs@[j] == hs_fixed[j]);
                assert(want[j] == with_e[j]);
            } else {
                let k = j - fixed_len;
                assert(hs@[fixed_len + k].0@ == encode_utf8(extras@[k].0@) && hs@[fixed_len
                    + k].1@ == encode_utf8(extras@[k].1@));
                assert(want[j] == ev[k]);
                assert(ev[k] == (encode_utf8(extras@[k].0@), encode_utf8(extras@[k].1@)));
            }
        }
        assert(pairs_view(hs@) =~~= client_headers(
            encode_utf8(uri.host@),
            match uri.port {
                Some(p) => p as int,
                None => if mode is WS {
                    80int
                } else {
                    443int
                },
            },
            key.spec_bytes(),
            version as int,
            protocols@,
            extensions@,
            ev,
        ));
    }
    r
}

/// Check the bytes read back after the request was written: the head must
/// be complete and parse, the status must be 101 and any accept header must
/// match the key. Succeeds exactly when all three hold, returning the
/// parsed head, faithful to what the named parse reads out of the bytes,
/// and the offset of the first frame-stream byte; fails with the handshake
/// error otherwise.
pub fn check_handshake_response(key: &str, buf: &[u8]) -> (r: Result<
    (HandshakeResponse, usize),
    WsError,
>)
    ensures
        match first_header_end(buf@) {
            None => r matches Err(er) && er matches WsError::HandShakeFailed(_),
            Some(e0) => match http_response_of(buf@.subrange(0, e0)) {
                None => r matches Err(er) && er matches WsError::HandShakeFailed(_),
                Some(t) => if resp_check_ok_view(key.spec_bytes(), t.0, t.2) {
                    r matches Ok((resp, e)) && e == e0 && resp.code == t.0 && resp.reason@ == t.1
                        && headers_deep(resp.headers@) == t.2 && resp_check_ok(
                        key.spec_bytes(),
                        resp,
                    )
                } else {
                    r matches Err(er) && er matches WsError::HandShakeFailed(_)
                },
            },
        },
{
    let e = match find_header_end(buf) {
        Some(e) => e,
        None => {
            return Err(WsError::HandShakeFailed(String::from_str("incomplete response head")));
        },
    };
    let head = vstd::slice::slice_subrange(buf, 0, e);
    let resp = match parse_http_response(head) {
        Some(resp) => resp,
        None => {
            return Err(WsError::HandShakeFailed(String::from_str("invalid response")));
        },
    };
    match standard_handshake_resp_check(key, &resp) {
        Ok(()) => Ok((resp, e)),
        Err(err) => Err(err),
    }
}

/// The serialised 101 response the server answers a sound upgrade with.
pub open spec fn server_response_head(accept: Seq<u8>) -> Seq<u8> {
    sb(
        "HTTP/1.1 101 Switching Protocols\r\nUpgrade: websocket\r\nConnection: Upgrade\r\nSec-WebSocket-Accept: ",
    ) + accept + sb("\r\n\r\n")
}

/// Serialise the 101 response carrying the given accept key.
pub fn build_server_response(accept: &str) -> (r: Vec<u8>)
    ensures
        r@ == server_response_head(accept.spec_bytes()),
{
    let mut out: Vec<u8> = Vec::new();
    out.extend_from_slice(
        "HTTP/1.1 101 Switching Protocols\r\nUpgrade: websocket\r\nConnection: Upgrade\r\nSec-WebSocket-Accept: ".as_bytes(),
    );
    out.extend_from_slice(accept.as_bytes());
    out.extend_from_slice("\r\n\r\n".as_bytes());
    assert(out@ =~= server_response_head(accept.spec_bytes()));
    out
}

/// The serialised 400 response the server answers a broken upgrade with.
pub open spec fn bad_request_head(reason: Seq<u8>) -> Seq<u8> {
    sb("HTTP/1.1 400 Bad Request\r\n\r\n") + reason
}

/// Serialise a 400 response carrying the given reason in its body.
pub fn build_bad_request_response(reason: &str) -> (r: Vec<u8>)
    ensures
        r@ == bad_request_head(reason.spec_bytes()),
{
    let mut out: Vec<u8> = Vec::new();
    out.extend_from_slice("HTTP/1.1 400 Bad Request\r\n\r\n".as_bytes());
    out.extend_from_slice(reason.as_bytes());
    assert(out@ =~= bad_request_head(reason.spec_bytes()));
    out
}

/// The server side of the upgrade, after the head was read: the parsed
/// request, the response to write back, the accept key when the upgrade is
/// sound, and where the frame stream begins.
#[derive(Debug, Clone)]
pub struct ServerHandshake {
    /// the parsed upgrade request
    pub request: HandshakeRequest,
    /// the serialised response to write back
    pub response: Vec<u8>,
    /// the accept key, present exactly when the upgrade was accepted
    pub accept: Option<String>,
    /// offset of the first byte past the request head
    pub leftover_start: usize,
}

/// Handle an upgrade request read from the transport: the head must be
/// complete and parse, else the call fails with the handshake error.
/// Otherwise the parsed request comes back faithful to what the named parse
/// reads out of the bytes, together with the offset of the first
/// frame-stream byte, and: when the request carries `Upgrade: websocket`
/// and a non-empty key, the accept key and the 101 response carrying it;
/// otherwise no accept key and the 400 response.
pub fn handle_handshake(buf: &[u8]) -> (r: Result<ServerHandshake, WsError>)
    ensures
        match first_header_end(buf@) {
            None => r matches Err(er) && er matches WsError::HandShakeFailed(_),
            Some(e0) => match http_request_of(buf@.subrange(0, e0)) {
                None => r matches Err(er) && er matches WsError::HandShakeFailed(_),
                Some(t) => r matches Ok(sh) && {
                    &&& sh.leftover_start == e0
                    &&& sh.request.method@ == t.0
                    &&& sh.request.path@ == t.1
                    &&& headers_deep(sh.request.headers@) == t.2
                    &&& match req_key_of_view(t.2) {
                        Some(_) => sh.accept matches Some(a) && sh.response@
                            == server_response_head(encode_utf8(a@)) && (exists|i: int|
                            0 <= i < t.2.len() && view_header_is(
                                #[trigger] t.2[i],
                                "sec-websocket-key",
                            ) && t.2[i].1.len() > 0 && a@ == accept_key_of(
                                encode_utf8(t.2[i].1),
                            )),
                        None => sh.accept is None && sh.response@ == bad_request_head(
                            sb("missing upgrade header or sec-websocket-key"),
                        ),
                    }
                },
            },
        },
{
    let e = match find_header_end(buf) {
        Some(e) => e,
        None => {
            return Err(WsError::HandShakeFailed(String::from_str("incomplete request head")));
        },
    };
    let head = vstd::slice::slice_subrange(buf, 0, e);
    let request = match parse_http_request(head) {
        Some(req) => req,
        None => {
            return Err(WsError::HandShakeFailed(String::from_str("invalid request")));
        },
    };
    match standard_handshake_req_check(&request) {
        Ok(accept) => {
            let response = build_server_response(accept.as_str());
            proof {
                let t = http_request_of(buf@.subrange(0, e as int))->Some_0;
                let hd = headers_deep(request.headers@);
                let kw = choose|i: int|
                    0 <= i < request.headers@.len() && header_is(
                        #[trigger] request.headers@[i],
                        "sec-websocket-key",
                    ) && request.headers@[i].1@.len() > 0 && accept@ == accept_key_of(
                        encode_utf8(request.headers@[i].1@),
                    );
                assert(hd[kw] == header_chars(request.headers@[kw]));
                assert(view_header_is(t.2[kw], "sec-websocket-key") && t.2[kw].1.len() > 0
                    && accept@ == accept_key_of(encode_utf8(t.2[kw].1)));
            }
            Ok(
                ServerHandshake {
                    request,
                    response,
                    accept: Some(accept),
                    leftover_start: e,
                },
            )
        },
        Err(_) => {
            let response = build_bad_request_response(
                "missing upgrade header or sec-websocket-key",
            );
            Ok(ServerHandshake { request, response, accept: None, leftover_start: e })
        },
    }
}

} // verus!
