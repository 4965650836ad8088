use base64::Engine;
use crypto::digest::Digest;
use vstd::prelude::*;

use crate::http::error::{HttpError, Version};
use crate::http::head::{
    content_end, fault_error, fields_from, first_index, first_index_in, lemma_scan_matches, line_content, line_end,
    parse_version, read_fields, scan_line, version_of, FieldsOutcome, LineEnd, DEFAULT_MAXIMUM_HEADER_SIZE,
};
use crate::http::headers::Headers;
use crate::http::text::{eq_ignore_case, lower_seq, range_eq_ignore_case};
use crate::ws::errors::WebSocketError;

verus! {

/// The WebSocket protocol version this library speaks.
pub const WEB_SOCKET_VERSION: &'static str = "13";

/// The status of the response that accepts an upgrade.
pub const SWITCHING_PROTOCOLS: u16 = 101;

/// The GUID appended to a key before it is hashed: RFC 6455.
pub open spec fn guid() -> Seq<u8> {
    seq![
        0x32u8, 0x35, 0x38, 0x45, 0x41, 0x46, 0x41, 0x35, 0x2d, 0x45, 0x39, 0x31, 0x34, 0x2d, 0x34,
        0x37, 0x44, 0x41, 0x2d, 0x39, 0x35, 0x43, 0x41, 0x2d, 0x43, 0x35, 0x41, 0x42, 0x30, 0x44,
        0x43, 0x38, 0x35, 0x42, 0x31, 0x31,
    ]
}

/// The standard base64 text (with padding) of some bytes.
pub uninterp spec fn base64_of(b: Seq<u8>) -> Seq<u8>;

/// The bytes a standard base64 text decodes to, if it is one.
pub uninterp spec fn base64_decoded(t: Seq<u8>) -> Option<Seq<u8>>;

/// The SHA-1 digest of some bytes.
pub uninterp spec fn sha1_of(b: Seq<u8>) -> Seq<u8>;

/// A byte of the standard base64 alphabet, or the padding `=`.
pub open spec fn is_base64_byte(c: u8) -> bool {
    (0x41 <= c <= 0x5a) || (0x61 <= c <= 0x7a) || (0x30 <= c <= 0x39) || c == 0x2b || c == 0x2f
        || c == 0x3d
}

/// Relies on `base64::Engine::encode` with the standard engine: the
/// padded base64 text of the bytes, four characters of the standard
/// alphabet (or `=` padding) for each group of up to three bytes.
#[verifier::external_body]
fn base64_encode(b: &[u8]) -> (r: Vec<u8>)
    ensures
        r@ == base64_of(b@),
        r@.len() == 4 * ((b@.len() + 2) / 3),
        forall|i: int| 0 <= i < r@.len() ==> is_base64_byte(#[trigger] r@[i]),
{
    base64::engine::general_purpose::STANDARD.encode(b).into_bytes()
}

/// Relies on `base64::Engine::decode` with the standard engine: the bytes
/// of a valid padded base64 text, or `None`.
#[verifier::external_body]
fn base64_decode(t: &[u8]) -> (r: Option<Vec<u8>>)
    ensures
        r is Some <==> base64_decoded(t@) is Some,
        r matches Some(v) ==> base64_decoded(t@) == Some(v@),
{
    base64::engine::general_purpose::STANDARD.decode(t).ok()
}

/// Relies on `crypto::sha1::Sha1`: the 20-byte SHA-1 digest of the input.
#[verifier::external_body]
fn sha1(b: &[u8]) -> (r: Vec<u8>)
    ensures
        r@ == sha1_of(b@),
        r@.len() == 20,
{
    let mut sha = crypto::sha1::Sha1::new();
    let mut sum = [0u8; 20];
    sha.input(b);
    sha.result(&mut sum);
    sum.to_vec()
}

/// Relies on `rand::random`: sixteen bytes of the thread-local generator.
#[verifier::external_body]
fn random_bytes() -> (r: [u8; 16]) {
    rand::random()
}

/// The `Sec-WebSocket-Accept` value for a key text: the base64 of the SHA-1
/// of the key text followed by the GUID.
pub open spec fn accept_of(key_text: Seq<u8>) -> Seq<u8> {
    base64_of(sha1_of(key_text + guid()))
}

/// A WebSocket handshake key: sixteen bytes.
#[derive(Debug, Clone, Copy)]
pub struct Key {
    pub data: [u8; 16],
}

impl Key {
    /// A fresh random key.
    pub fn new() -> (r: Key) {
        Key { data: random_bytes() }
    }

    /// The key that a `Sec-WebSocket-Key` text names: it must be base64 of
    /// exactly sixteen bytes.
    pub fn from(val: &[u8]) -> (r: Result<Key, WebSocketError>)
        ensures
            r is Ok <==> (base64_decoded(val@) matches Some(d) && d.len() == 16),
            r matches Ok(k) ==> base64_decoded(val@) == Some(k.data@),
            r matches Err(e) ==> e == WebSocketError::InvalidKey,
    {
        match base64_decode(val) {
            Some(d) => {
                if d.len() != 16 {
                    return Err(WebSocketError::InvalidKey);
                }
                let mut data = [0u8; 16];
                let mut i: usize = 0;
                while i < 16
                    invariant
                        d@.len() == 16,
                        i <= 16,
                        data@.len() == 16,
                        forall|j: int| 0 <= j < i ==> data@[j] == d@[j],
                    decreases 16 - i,
                {
                    data[i] = d[i];
                    i = i + 1;
                }
                assert(data@ =~= d@);
                Ok(Key { data })
            },
            None => Err(WebSocketError::InvalidKey),
        }
    }

    /// The key as its base64 text, 24 bytes that are a valid header value.
    pub fn encode(&self) -> (r: Vec<u8>)
        ensures
            r@ == base64_of(self.data@),
            r@.len() == 24,
            crate::http::headers::valid_value(r@),
    {
        let r = base64_encode(&self.data);
        assert forall|i: int| 0 <= i < r@.len() implies crate::http::headers::is_value_byte(#[trigger] r@[i]) by {
            assert(is_base64_byte(r@[i]));
        }
        r
    }

    /// The `Sec-WebSocket-Accept` value that answers this key.
    pub fn accept(&self) -> (r: Vec<u8>)
        ensures
            r@ == accept_of(base64_of(self.data@)),
    {
        let text = self.encode();
        accept_for(text.as_slice())
    }
}

/// The `Sec-WebSocket-Accept` value for the key text `key_text`, as the
/// client sent it.
pub fn accept_for(key_text: &[u8]) -> (r: Vec<u8>)
    ensures
        r@ == accept_of(key_text@),
{
    let mut text = crate::http::text::copy_bytes(key_text);
    let g: [u8; 36] = [
        0x32u8, 0x35, 0x38, 0x45, 0x41, 0x46, 0x41, 0x35, 0x2d, 0x45, 0x39, 0x31, 0x34, 0x2d,
        0x34, 0x37, 0x44, 0x41, 0x2d, 0x39, 0x35, 0x43, 0x41, 0x2d, 0x43, 0x35, 0x41, 0x42, 0x30,
        0x44, 0x43, 0x38, 0x35, 0x42, 0x31, 0x31,
    ];
    assert(g@ =~= guid());
    let mut i: usize = 0;
    let ghost start = text@;
    while i < g.len()
        invariant
            i <= g@.len(),
            text@ == start + g@.subrange(0, i as int),
        decreases g@.len() - i,
    {
        text.push(g[i]);
        i = i + 1;
        assert(text@ =~= start + g@.subrange(0, i as int));
    }
    assert(g@.subrange(0, g@.len() as int) =~= g@);
    let digest = sha1(text.as_slice());
    base64_encode(digest.as_slice())
}

/// The field `name` of `h` holds `word`, in any ASCII case.
pub open spec fn field_is(h: &Headers, name: Seq<u8>, word: Seq<u8>) -> bool {
    h.map().contains_key(lower_seq(name)) && eq_ignore_case(h.map()[lower_seq(name)], word)
}

pub open spec fn connection_name() -> Seq<u8> {
    seq![0x43u8, 0x6f, 0x6e, 0x6e, 0x65, 0x63, 0x74, 0x69, 0x6f, 0x6e]
}

pub open spec fn upgrade_word() -> Seq<u8> {
    seq![0x55u8, 0x70, 0x67, 0x72, 0x61, 0x64, 0x65]
}

pub open spec fn websocket_word() -> Seq<u8> {
    seq![0x77u8, 0x65, 0x62, 0x73, 0x6f, 0x63, 0x6b, 0x65, 0x74]
}

pub open spec fn accept_name() -> Seq<u8> {
    seq![
        0x53u8, 0x65, 0x63, 0x2d, 0x57, 0x65, 0x62, 0x53, 0x6f, 0x63, 0x6b, 0x65, 0x74, 0x2d, 0x41,
        0x63, 0x63, 0x65, 0x70, 0x74,
    ]
}

pub open spec fn key_name() -> Seq<u8> {
    seq![
        0x53u8, 0x65, 0x63, 0x2d, 0x57, 0x65, 0x62, 0x53, 0x6f, 0x63, 0x6b, 0x65, 0x74, 0x2d, 0x4b,
        0x65, 0x79,
    ]
}

pub open spec fn version_name() -> Seq<u8> {
    seq![
        0x53u8, 0x65, 0x63, 0x2d, 0x57, 0x65, 0x62, 0x53, 0x6f, 0x63, 0x6b, 0x65, 0x74, 0x2d, 0x56,
        0x65, 0x72, 0x73, 0x69, 0x6f, 0x6e,
    ]
}

pub open spec fn thirteen() -> Seq<u8> {
    seq![0x31u8, 0x33]
}

fn field_matches(h: &Headers, name: &[u8], word: &[u8]) -> (r: bool)
    requires
        h.wf(),
    ensures
        r == field_is(h, name@, word@),
{
    match h.get(name) {
        Some(v) => {
            let r = range_eq_ignore_case(v.as_slice(), 0, v.len(), word);
            assert(v@.subrange(0, v@.len() as int) =~= v@);
            r
        },
        None => false,
    }
}

/// Checks the server's answer to an upgrade request whose key has the
/// accept value `accept`: status 101, `Connection: upgrade`,
/// `Upgrade: websocket` and the accept value, each in any ASCII case.
pub fn check_server_response(status: u16, headers: &Headers, accept: &[u8]) -> (r: Result<(), WebSocketError>)
    requires
        headers.wf(),
    ensures
        r is Ok <==> status == SWITCHING_PROTOCOLS && field_is(headers, connection_name(), upgrade_word())
            && field_is(headers, seq![0x55u8, 0x70, 0x67, 0x72, 0x61, 0x64, 0x65], websocket_word())
            && field_is(headers, accept_name(), accept@),
        r matches Err(e) ==> e == WebSocketError::ServerRejected,
{
    let connection: [u8; 10] = [0x43u8, 0x6f, 0x6e, 0x6e, 0x65, 0x63, 0x74, 0x69, 0x6f, 0x6e];
    let upgrade: [u8; 7] = [0x55u8, 0x70, 0x67, 0x72, 0x61, 0x64, 0x65];
    let websocket: [u8; 9] = [0x77u8, 0x65, 0x62, 0x73, 0x6f, 0x63, 0x6b, 0x65, 0x74];
    let accept_field: [u8; 20] = [
        0x53u8, 0x65, 0x63, 0x2d, 0x57, 0x65, 0x62, 0x53, 0x6f, 0x63, 0x6b, 0x65, 0x74, 0x2d, 0x41,
        0x63, 0x63, 0x65, 0x70, 0x74,
    ];
    assert(connection@ =~= connection_name());
    assert(upgrade@ =~= upgrade_word());
    assert(websocket@ =~= websocket_word());
    assert(accept_field@ =~= accept_name());
    if status != SWITCHING_PROTOCOLS {
        return Err(WebSocketError::ServerRejected);
    }
    if !field_matches(headers, &connection, &upgrade) {
        return Err(WebSocketError::ServerRejected);
    }
    if !field_matches(headers, &upgrade, &websocket) {
        return Err(WebSocketError::ServerRejected);
    }
    if !field_matches(headers, &accept_field, accept) {
        return Err(WebSocketError::ServerRejected);
    }
    Ok(())
}

/// Checks a client's upgrade request and reads its key:
/// `Connection: upgrade`, `Upgrade: websocket` and
/// `Sec-WebSocket-Version: 13` (any ASCII case), and a
/// `Sec-WebSocket-Key` that is base64 of sixteen bytes.
pub fn check_client_request(headers: &Headers) -> (r: Result<Key, WebSocketError>)
    requires
        headers.wf(),
    ensures
        ({
            let fields_ok = field_is(headers, connection_name(), upgrade_word()) && field_is(
                headers,
                upgrade_word(),
                websocket_word(),
            ) && field_is(headers, version_name(), thirteen());
            let key = headers.map().contains_key(lower_seq(key_name()));
            &&& !(fields_ok && key) ==> r == Err::<Key, WebSocketError>(WebSocketError::InvalidClientRequest)
            &&& fields_ok && key ==> match base64_decoded(headers.map()[lower_seq(key_name())]) {
                Some(d) => if d.len() == 16 {
                    r matches Ok(k) && k.data@ == d
                } else {
                    r == Err::<Key, WebSocketError>(WebSocketError::InvalidKey)
                },
                None => r == Err::<Key, WebSocketError>(WebSocketError::InvalidKey),
            }
        }),
{
    let connection: [u8; 10] = [0x43u8, 0x6f, 0x6e, 0x6e, 0x65, 0x63, 0x74, 0x69, 0x6f, 0x6e];
    let upgrade: [u8; 7] = [0x55u8, 0x70, 0x67, 0x72, 0x61, 0x64, 0x65];
    let websocket: [u8; 9] = [0x77u8, 0x65, 0x62, 0x73, 0x6f, 0x63, 0x6b, 0x65, 0x74];
    let version: [u8; 21] = [
        0x53u8, 0x65, 0x63, 0x2d, 0x57, 0x65, 0x62, 0x53, 0x6f, 0x63, 0x6b, 0x65, 0x74, 0x2d, 0x56,
        0x65, 0x72, 0x73, 0x69, 0x6f, 0x6e,
    ];
    let thirteen_bytes: [u8; 2] = [0x31u8, 0x33];
    let key_field: [u8; 17] = [
        0x53u8, 0x65, 0x63, 0x2d, 0x57, 0x65, 0x62, 0x53, 0x6f, 0x63, 0x6b, 0x65, 0x74, 0x2d, 0x4b,
        0x65, 0x79,
    ];
    assert(connection@ =~= connection_name());
    assert(upgrade@ =~= upgrade_word());
    assert(websocket@ =~= websocket_word());
    assert(version@ =~= version_name());
    assert(thirteen_bytes@ =~= thirteen());
    assert(key_field@ =~= key_name());
    if !field_matches(headers, &connection, &upgrade) || !field_matches(headers, &upgrade, &websocket)
        || !field_matches(headers, &version, &thirteen_bytes) {
        return Err(WebSocketError::InvalidClientRequest);
    }
    match headers.get(&key_field) {
        None => Err(WebSocketError::InvalidClientRequest),
        Some(k) => Key::from(k.as_slice()),
    }
}

/// Checks a client's upgrade request as `check_client_request` does, and
/// gives the `Sec-WebSocket-Accept` value for the key text it sent.
pub fn client_accept(headers: &Headers) -> (r: Result<Vec<u8>, WebSocketError>)
    requires
        headers.wf(),
    ensures
        r is Ok <==> check_client_ok(headers),
        r matches Ok(a) ==> a@ == accept_of(headers.map()[lower_seq(key_name())]),
        r matches Err(e) ==> e == WebSocketError::InvalidClientRequest || e == WebSocketError::InvalidKey,
{
    match check_client_request(headers) {
        Err(e) => Err(e),
        Ok(_) => {
            let key_field: [u8; 17] = [
                0x53u8, 0x65, 0x63, 0x2d, 0x57, 0x65, 0x62, 0x53, 0x6f, 0x63, 0x6b, 0x65, 0x74,
                0x2d, 0x4b, 0x65, 0x79,
            ];
            assert(key_field@ =~= key_name());
            match headers.get(&key_field) {
                None => Err(WebSocketError::InvalidClientRequest),
                Some(k) => Ok(accept_for(k.as_slice())),
            }
        },
    }
}

/// The request passes `check_client_request`.
pub open spec fn check_client_ok(headers: &Headers) -> bool {
    &&& field_is(headers, connection_name(), upgrade_word())
    &&& field_is(headers, upgrade_word(), websocket_word())
    &&& field_is(headers, version_name(), thirteen())
    &&& headers.map().contains_key(lower_seq(key_name()))
    &&& base64_decoded(headers.map()[lower_seq(key_name())]) matches Some(d) && d.len() == 16
}

/// A request line `GET <path> <version>`: its version and path.
pub open spec fn request_line_of(l: Seq<u8>) -> Option<(Version, Seq<u8>)> {
    let i = first_index(l, 0x20);
    if i >= l.len() || l.subrange(0, i) != seq![0x47u8, 0x45, 0x54] {
        None
    } else {
        let rest = l.subrange(i + 1, l.len() as int);
        let j = first_index(rest, 0x20);
        if j >= rest.len() {
            None
        } else {
            let after = rest.subrange(j + 1, rest.len() as int);
            let k = first_index(after, 0x20);
            match version_of(after.subrange(0, k)) {
                Some(v) => Some((v, rest.subrange(0, j))),
                None => None,
            }
        }
    }
}

/// Reads the request line `s[start..end]` of an upgrade request.
pub fn parse_request_line(s: &[u8], start: usize, end: usize) -> (r: Option<(Version, Vec<u8>)>)
    requires
        start <= end <= s@.len(),
    ensures
        match request_line_of(s@.subrange(start as int, end as int)) {
            Some((v, p)) => r matches Some((rv, rp)) && rv == v && rp@ == p,
            None => r is None,
        },
{
    let ghost l = s@.subrange(start as int, end as int);
    let i = first_index_in(s, start, end, 0x20);
    assert(l.subrange(0, i - start) =~= s@.subrange(start as int, i as int));
    if i >= end || !(i - start == 3 && s[start] == 0x47 && s[start + 1] == 0x45 && s[start + 2] == 0x54) {
        proof {
            if i < end && i - start == 3 {
                assert(l.subrange(0, 3) != seq![0x47u8, 0x45, 0x54] || (s@[start as int] == 0x47 && s@[start + 1] == 0x45 && s@[start + 2] == 0x54));
            }
        }
        return None;
    }
    assert(l.subrange(0, 3) =~= seq![0x47u8, 0x45, 0x54]);
    let ghost rest = l.subrange(i - start + 1, l.len() as int);
    assert(rest =~= s@.subrange(i + 1, end as int));
    let j = first_index_in(s, i + 1, end, 0x20);
    if j >= end {
        return None;
    }
    let ghost after = rest.subrange(j - i, rest.len() as int);
    assert(after =~= s@.subrange(j + 1, end as int));
    let k = first_index_in(s, j + 1, end, 0x20);
    assert(after.subrange(0, k - j - 1) =~= s@.subrange(j + 1, k as int));
    assert(rest.subrange(0, j - i - 1) =~= s@.subrange(i + 1, j as int));
    match parse_version(s, j + 1, k) {
        None => None,
        Some(v) => {
            let mut p: Vec<u8> = Vec::new();
            let mut x = i + 1;
            while x < j
                invariant
                    i + 1 <= x <= j <= s@.len(),
                    p@ == s@.subrange(i + 1, x as int),
                decreases j - x,
            {
                p.push(s[x]);
                x = x + 1;
                assert(p@ =~= s@.subrange(i + 1, x as int));
            }
            Some((v, p))
        },
    }
}

/// The bytes of the response that accepts an upgrade, with the accept value
/// `accept`.
pub open spec fn upgrade_response(accept: Seq<u8>) -> Seq<u8> {
    // "HTTP/1.1 101 Switching Protocols\r\nConnection: Upgrade\r\nUpgrade: websocket\r\nSec-WebSocket-Accept: "
    switching_head() + accept + seq![0x0du8, 0x0a, 0x0d, 0x0a]
}

pub open spec fn switching_head() -> Seq<u8> {
    seq![
        0x48u8, 0x54, 0x54, 0x50, 0x2f, 0x31, 0x2e, 0x31, 0x20, 0x31, 0x30, 0x31, 0x20, 0x53, 0x77,
        0x69, 0x74, 0x63, 0x68, 0x69, 0x6e, 0x67, 0x20, 0x50, 0x72, 0x6f, 0x74, 0x6f, 0x63, 0x6f,
        0x6c, 0x73, 0x0d, 0x0a, 0x43, 0x6f, 0x6e, 0x6e, 0x65, 0x63, 0x74, 0x69, 0x6f, 0x6e, 0x3a,
        0x20, 0x55, 0x70, 0x67, 0x72, 0x61, 0x64, 0x65, 0x0d, 0x0a, 0x55, 0x70, 0x67, 0x72, 0x61,
        0x64, 0x65, 0x3a, 0x20, 0x77, 0x65, 0x62, 0x73, 0x6f, 0x63, 0x6b, 0x65, 0x74, 0x0d, 0x0a,
        0x53, 0x65, 0x63, 0x2d, 0x57, 0x65, 0x62, 0x53, 0x6f, 0x63, 0x6b, 0x65, 0x74, 0x2d, 0x41,
        0x63, 0x63, 0x65, 0x70, 0x74, 0x3a, 0x20,
    ]
}

/// The response that accepts an upgrade: `101 Switching Protocols` with
/// `Connection: Upgrade`, `Upgrade: websocket` and the accept value.
pub fn write_upgrade_response(accept: &[u8]) -> (r: Vec<u8>)
    ensures
        r@ == upgrade_response(accept@),
{
    let head: [u8; 97] = [
        0x48u8, 0x54, 0x54, 0x50, 0x2f, 0x31, 0x2e, 0x31, 0x20, 0x31, 0x30, 0x31, 0x20, 0x53, 0x77,
        0x69, 0x74, 0x63, 0x68, 0x69, 0x6e, 0x67, 0x20, 0x50, 0x72, 0x6f, 0x74, 0x6f, 0x63, 0x6f,
        0x6c, 0x73, 0x0d, 0x0a, 0x43, 0x6f, 0x6e, 0x6e, 0x65, 0x63, 0x74, 0x69, 0x6f, 0x6e, 0x3a,
        0x20, 0x55, 0x70, 0x67, 0x72, 0x61, 0x64, 0x65, 0x0d, 0x0a, 0x55, 0x70, 0x67, 0x72, 0x61,
        0x64, 0x65, 0x3a, 0x20, 0x77, 0x65, 0x62, 0x73, 0x6f, 0x63, 0x6b, 0x65, 0x74, 0x0d, 0x0a,
        0x53, 0x65, 0x63, 0x2d, 0x57, 0x65, 0x62, 0x53, 0x6f, 0x63, 0x6b, 0x65, 0x74, 0x2d, 0x41,
        0x63, 0x63, 0x65, 0x70, 0x74, 0x3a, 0x20,
    ];
    assert(head@ =~= switching_head());
    let mut out = crate::http::text::copy_bytes(&head);
    let ghost h = out@;
    let mut i: usize = 0;
    while i < accept.len()
        invariant
            i <= accept@.len(),
            out@ == h + accept@.subrange(0, i as int),
        decreases accept@.len() - i,
    {
        out.push(accept[i]);
        i = i + 1;
        assert(out@ =~= h + accept@.subrange(0, i as int));
    }
    assert(accept@.subrange(0, accept@.len() as int) =~= accept@);
    out.push(0x0d);
    out.push(0x0a);
    out.push(0x0d);
    out.push(0x0a);
    assert(out@ =~= upgrade_response(accept@));
    out
}

/// Adds the fields of an upgrade request with the key text `key_text`:
/// `Connection: Upgrade`, `Upgrade: websocket`,
/// `Sec-WebSocket-Version: 13`, `Sec-WebSocket-Key`.
pub fn add_upgrade_fields(headers: &mut Headers, key_text: &[u8]) -> (r: Result<(), HttpError>)
    requires
        old(headers).wf(),
    ensures
        final(headers).wf(),
        r is Ok ==> final(headers).map() == old(headers).map().insert(lower_seq(connection_name()), upgrade_word()).insert(
            lower_seq(upgrade_word()),
            websocket_word(),
        ).insert(lower_seq(version_name()), thirteen()).insert(lower_seq(key_name()), key_text@),
        r is Ok <==> crate::http::headers::valid_value(key_text@),
{
    let connection: [u8; 10] = [0x43u8, 0x6f, 0x6e, 0x6e, 0x65, 0x63, 0x74, 0x69, 0x6f, 0x6e];
    let upgrade: [u8; 7] = [0x55u8, 0x70, 0x67, 0x72, 0x61, 0x64, 0x65];
    let websocket: [u8; 9] = [0x77u8, 0x65, 0x62, 0x73, 0x6f, 0x63, 0x6b, 0x65, 0x74];
    let version: [u8; 21] = [
        0x53u8, 0x65, 0x63, 0x2d, 0x57, 0x65, 0x62, 0x53, 0x6f, 0x63, 0x6b, 0x65, 0x74, 0x2d, 0x56,
        0x65, 0x72, 0x73, 0x69, 0x6f, 0x6e,
    ];
    let thirteen_bytes: [u8; 2] = [0x31u8, 0x33];
    let key_field: [u8; 17] = [
        0x53u8, 0x65, 0x63, 0x2d, 0x57, 0x65, 0x62, 0x53, 0x6f, 0x63, 0x6b, 0x65, 0x74, 0x2d, 0x4b,
        0x65, 0x79,
    ];
    assert(connection@ =~= connection_name());
    assert(upgrade@ =~= upgrade_word());
    assert(websocket@ =~= websocket_word());
    assert(version@ =~= version_name());
    assert(thirteen_bytes@ =~= thirteen());
    assert(key_field@ =~= key_name());
    if !crate::http::headers::check_value(key_text) {
        return Err(HttpError::InvalidHeaderValue(crate::http::text::copy_bytes(key_text)));
    }
    let ghost m0 = headers.map();
    match headers.insert(&connection, &upgrade) {
        Err(e) => return Err(e),
        Ok(()) => {},
    }
    match headers.insert(&upgrade, &websocket) {
        Err(e) => return Err(e),
        Ok(()) => {},
    }
    match headers.insert(&version, &thirteen_bytes) {
        Err(e) => return Err(e),
        Ok(()) => {},
    }
    headers.insert(&key_field, key_text)
}

/// Reads the head of a client's upgrade request from the front of `buf`:
/// a request line `GET <path> HTTP/1.1`, then header lines within
/// `DEFAULT_MAXIMUM_HEADER_SIZE` bytes in all, each at most `capacity`
/// bytes. Returns the path, the fields and the bytes taken, or `None` when
/// more bytes are needed.
pub fn read_upgrade_request(buf: &[u8], eof: bool, capacity: usize) -> (r: Result<Option<(Vec<u8>, Headers, usize)>, HttpError>)
    ensures
        r matches Ok(Some((path, h, n))) ==> h.wf() && n <= buf@.len(),
        match line_end(buf@, 0, capacity as int, eof) {
            LineEnd::TooLong => r == Err::<Option<(Vec<u8>, Headers, usize)>, HttpError>(HttpError::HeadersTooLong),
            LineEnd::Eof => r == Err::<Option<(Vec<u8>, Headers, usize)>, HttpError>(HttpError::UnexpectedEof),
            LineEnd::More => r matches Ok(None),
            LineEnd::At(e) => match request_line_of(line_content(buf@.subrange(0, e))) {
                None => r matches Err(HttpError::InvalidStatusLine(_)),
                Some((v, p)) => if v != Version::Http11 {
                    r == Err::<Option<(Vec<u8>, Headers, usize)>, HttpError>(HttpError::UnexpectedVersion(v))
                } else if e > DEFAULT_MAXIMUM_HEADER_SIZE {
                    r == Err::<Option<(Vec<u8>, Headers, usize)>, HttpError>(HttpError::HeadersTooLong)
                } else {
                    match fields_from(buf@, e, capacity as int, DEFAULT_MAXIMUM_HEADER_SIZE - e, eof) {
                        FieldsOutcome::Fail(f) => r matches Err(err) && fault_error(err, f),
                        FieldsOutcome::More => r matches Ok(None),
                        FieldsOutcome::Done(fs, _, end) => r matches Ok(Some((rp, h, n))) && rp@ == p
                            && n == end && h.map() == crate::http::headers::fields_map(fs),
                    }
                },
            },
        },
{
    let sr = scan_line(buf, 0, capacity, eof);
    proof {
        lemma_scan_matches(buf@, 0, capacity as int, eof, sr);
    }
    let end = match sr {
        Err(e) => return Err(e),
        Ok(None) => return Ok(None),
        Ok(Some(e)) => e,
    };
    let ce = content_end(buf, 0, end);
    let (version, path) = match parse_request_line(buf, 0, ce) {
        None => {
            let mut l: Vec<u8> = Vec::new();
            let mut i: usize = 0;
            while i < ce
                invariant
                    i <= ce <= buf@.len(),
                decreases ce - i,
            {
                l.push(buf[i]);
                i = i + 1;
            }
            return Err(HttpError::InvalidStatusLine(l));
        },
        Some(p) => p,
    };
    if version != Version::Http11 {
        return Err(HttpError::UnexpectedVersion(version));
    }
    if end > DEFAULT_MAXIMUM_HEADER_SIZE {
        return Err(HttpError::HeadersTooLong);
    }
    match read_fields(buf, end, eof, capacity, DEFAULT_MAXIMUM_HEADER_SIZE - end) {
        Err(e) => Err(e),
        Ok(None) => Ok(None),
        Ok(Some((h, _, n))) => Ok(Some((path, h, n))),
    }
}

} // verus!
