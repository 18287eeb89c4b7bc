//! The HTTP side of a connection: parsing the upgrade request, validating it,
//! and the responses sent back.
use vstd::prelude::*;
use vstd::string::StringSliceAdditionalSpecFns;
use vstd::utf8::encode_utf8;
use crate::text::{caseless, caseless_eq, decimal, has_token, list_has_token, push_decimal, push_text, same_text};

verus! {

/// One request header; the value is decoded as UTF-8 (invalid sequences replaced).
pub struct Header {
    pub name: String,
    pub value: String,
}

/// A parsed HTTP/1.x request head.
pub struct Request {
    pub method: String,
    pub path: String,
    /// Minor version of HTTP/1.x (`1` for `HTTP/1.1`).
    pub version: u8,
    pub headers: Vec<Header>,
}

/// A request head as plain values.
pub struct RequestView {
    pub method: Seq<char>,
    pub path: Seq<char>,
    pub version: u8,
    pub headers: Seq<(Seq<char>, Seq<char>)>,
}

impl View for Request {
    type V = RequestView;

    open spec fn view(&self) -> RequestView {
        RequestView {
            method: self.method@,
            path: self.path@,
            version: self.version,
            headers: self.headers@.map_values(|h: Header| (h.name@, h.value@)),
        }
    }
}

/// Outcome of parsing the bytes received so far.
pub enum Parsed {
    /// More bytes are needed.
    Partial,
    /// The bytes are not an HTTP request.
    Malformed,
    /// A complete head, and the offset where the body starts.
    Complete(Request, usize),
}

pub enum ParsedView {
    Partial,
    Malformed,
    Complete(RequestView, nat),
}

impl View for Parsed {
    type V = ParsedView;

    open spec fn view(&self) -> ParsedView {
        match self {
            Parsed::Partial => ParsedView::Partial,
            Parsed::Malformed => ParsedView::Malformed,
            Parsed::Complete(r, n) => ParsedView::Complete(r@, *n as nat),
        }
    }
}

/// What `httparse` makes of a buffer, with room for `max_headers` headers.
pub uninterp spec fn parsed_request(buf: Seq<u8>, max_headers: nat) -> ParsedView;

/// Relies on `httparse::Request::parse`: it reads a request head from `buf` into at
/// most `max_headers` headers and, when the head is complete, returns where the
/// body starts.
#[verifier::external_body]
fn parse_head(buf: &[u8], max_headers: usize) -> (r: Parsed)
    ensures
        r@ == parsed_request(buf@, max_headers as nat),
        r matches Parsed::Complete(req, n) ==> n <= buf@.len() && req.headers@.len() <= max_headers,
{
    let mut headers = vec![httparse::EMPTY_HEADER; max_headers];
    let mut req = httparse::Request::new(&mut headers);
    match req.parse(buf) {
        Ok(httparse::Status::Complete(n)) => Parsed::Complete(Request {
            method: req.method.unwrap_or("").to_string(),
            path: req.path.unwrap_or("").to_string(),
            version: req.version.unwrap_or(0),
            headers: req.headers.iter().map(|h| Header {
                name: h.name.to_string(),
                value: String::from_utf8_lossy(h.value).into_owned(),
            }).collect(),
        }, n),
        Ok(httparse::Status::Partial) => Parsed::Partial,
        Err(_) => Parsed::Malformed,
    }
}

/// Why an upgrade request was refused, in the order the checks are made.
#[derive(Debug, Clone, Copy, PartialEq, Eq, Structural)]
pub enum HandshakeError {
    MethodNotGet,
    UnsupportedHttpVersion,
    UnsupportedWebsocketVersion,
    NoSecWsKeyHeader,
    NoUpgradeHeader,
    NoWsUpgradeHeader,
    NoConnectionHeader,
    NoWsConnectionHeader,
}

/// The value of the first header whose name is case-lessly `name`.
pub open spec fn first_header(hs: Seq<(Seq<char>, Seq<char>)>, name: Seq<char>) -> Option<Seq<char>>
    decreases hs.len(),
{
    if hs.len() == 0 {
        None
    } else if caseless(hs[0].0, name) {
        Some(hs[0].1)
    } else {
        first_header(hs.subrange(1, hs.len() as int), name)
    }
}

/// Some header named `name` lists the token `tok`.
pub open spec fn header_lists(hs: Seq<(Seq<char>, Seq<char>)>, name: Seq<char>, tok: Seq<char>) -> bool {
    exists|i: int| 0 <= i < hs.len() && caseless(#[trigger] hs[i].0, name) && has_token(hs[i].1, tok)
}

/// The verdict on an upgrade request.
pub open spec fn check_upgrade(r: RequestView) -> Result<(), HandshakeError> {
    if r.method != "GET"@ {
        Err(HandshakeError::MethodNotGet)
    } else if r.version < 1 {
        Err(HandshakeError::UnsupportedHttpVersion)
    } else if first_header(r.headers, "sec-websocket-version"@) matches Some(v) && v != "13"@ {
        Err(HandshakeError::UnsupportedWebsocketVersion)
    } else if first_header(r.headers, "sec-websocket-key"@) is None {
        Err(HandshakeError::NoSecWsKeyHeader)
    } else if first_header(r.headers, "upgrade"@) is None {
        Err(HandshakeError::NoUpgradeHeader)
    } else if !header_lists(r.headers, "upgrade"@, "websocket"@) {
        Err(HandshakeError::NoWsUpgradeHeader)
    } else if first_header(r.headers, "connection"@) is None {
        Err(HandshakeError::NoConnectionHeader)
    } else if !header_lists(r.headers, "connection"@, "upgrade"@) {
        Err(HandshakeError::NoWsConnectionHeader)
    } else {
        Ok(())
    }
}

proof fn lemma_first_header_step(hs: Seq<(Seq<char>, Seq<char>)>, i: int, name: Seq<char>)
    requires
        0 <= i < hs.len(),
    ensures
        first_header(hs.subrange(i, hs.len() as int), name) == if caseless(hs[i].0, name) {
            Some(hs[i].1)
        } else {
            first_header(hs.subrange(i + 1, hs.len() as int), name)
        },
{
    let s = hs.subrange(i, hs.len() as int);
    assert(s[0] == hs[i]);
    assert(s.subrange(1, s.len() as int) =~= hs.subrange(i + 1, hs.len() as int));
}

/// Index of the first header whose name is case-lessly `name`.
fn find_header(req: &Request, name: &str) -> (r: Option<usize>)
    ensures
        match r {
            Some(i) => i < req.headers@.len() && first_header(req@.headers, name@) == Some(
                req.headers@[i as int].value@,
            ),
            None => first_header(req@.headers, name@) is None,
        },
{
    let ghost hs = req@.headers;
    let n = req.headers.len();
    let mut i: usize = 0;
    assert(hs.subrange(0, hs.len() as int) =~= hs);
    while i < n
        invariant
            n == hs.len() == req.headers@.len(),
            hs == req@.headers,
            0 <= i <= n,
            first_header(hs.subrange(i as int, n as int), name@) == first_header(hs, name@),
        decreases n - i,
    {
        proof {
            lemma_first_header_step(hs, i as int, name@);
        }
        if caseless_eq(req.headers[i].name.as_str(), name) {
            return Some(i);
        }
        i = i + 1;
    }
    assert(hs.subrange(n as int, n as int).len() == 0);
    None
}

/// Whether some header named `name` lists the token `tok`.
fn any_header_lists(req: &Request, name: &str, tok: &str) -> (r: bool)
    ensures
        r == header_lists(req@.headers, name@, tok@),
{
    let ghost hs = req@.headers;
    let n = req.headers.len();
    let mut i: usize = 0;
    while i < n
        invariant
            n == hs.len() == req.headers@.len(),
            hs == req@.headers,
            0 <= i <= n,
            forall|j: int| 0 <= j < i ==> !(caseless(#[trigger] hs[j].0, name@) && has_token(hs[j].1, tok@)),
        decreases n - i,
    {
        let h = &req.headers[i];
        assert(hs[i as int] == (h.name@, h.value@));
        if caseless_eq(h.name.as_str(), name) && list_has_token(h.value.as_str(), tok) {
            assert(caseless(hs[i as int].0, name@) && has_token(hs[i as int].1, tok@));
            return true;
        }
        i = i + 1;
    }
    false
}

/// Check an upgrade request, rule by rule: the method is `GET`; the version is at
/// least HTTP/1.1; a `Sec-WebSocket-Version` header, if present, is `13`; there is a
/// `Sec-WebSocket-Key` header; an `Upgrade` header lists `websocket`; a `Connection`
/// header lists `upgrade`. Header names and tokens are compared without case.
pub fn validate(req: &Request) -> (r: Result<(), HandshakeError>)
    ensures
        r == check_upgrade(req@),
{
    if !same_text(req.method.as_str(), "GET") {
        return Err(HandshakeError::MethodNotGet);
    }
    if req.version < 1 {
        return Err(HandshakeError::UnsupportedHttpVersion);
    }
    match find_header(req, "sec-websocket-version") {
        Some(i) => {
            if !same_text(req.headers[i].value.as_str(), "13") {
                return Err(HandshakeError::UnsupportedWebsocketVersion);
            }
        },
        None => {},
    }
    if find_header(req, "sec-websocket-key").is_none() {
        return Err(HandshakeError::NoSecWsKeyHeader);
    }
    if find_header(req, "upgrade").is_none() {
        return Err(HandshakeError::NoUpgradeHeader);
    }
    if !any_header_lists(req, "upgrade", "websocket") {
        return Err(HandshakeError::NoWsUpgradeHeader);
    }
    if find_header(req, "connection").is_none() {
        return Err(HandshakeError::NoConnectionHeader);
    }
    if !any_header_lists(req, "connection", "upgrade") {
        return Err(HandshakeError::NoWsConnectionHeader);
    }
    Ok(())
}

pub open spec fn method_not_allowed() -> Seq<u8> {
    "HTTP/1.1 405 Method Not Allowed\r\nAllow: GET\r\nContent-Length: 0\r\nServer: ClassQueue\r\n\r\n".spec_bytes()
}

pub open spec fn bad_request() -> Seq<u8> {
    "HTTP/1.1 400 Bad Request\r\nContent-Length: 0\r\nServer: ClassQueue\r\n\r\n".spec_bytes()
}

pub open spec fn not_found() -> Seq<u8> {
    "HTTP/1.1 404 Not Found\r\nContent-Length: 0\r\nServer: ClassQueue\r\n\r\n".spec_bytes()
}

pub open spec fn found(body: Seq<u8>) -> Seq<u8> {
    "HTTP/1.1 200 OK\r\nContent-Length: ".spec_bytes() + decimal(body.len()) + "\r\nServer: ClassQueue\r\n\r\n".spec_bytes()
        + body
}

pub open spec fn switching_protocols(accept: Seq<char>) -> Seq<u8> {
    "HTTP/1.1 101 Switching Protocols\r\nConnection: Upgrade\r\nUpgrade: websocket\r\nSec-WebSocket-Accept: ".spec_bytes()
        + encode_utf8(accept) + "\r\n\r\n".spec_bytes()
}

/// The response to a request whose method is not `GET`.
pub fn invalid_method() -> (r: Vec<u8>)
    ensures
        r@ == method_not_allowed(),
{
    let mut out: Vec<u8> = Vec::new();
    push_text(&mut out, "HTTP/1.1 405 Method Not Allowed\r\nAllow: GET\r\nContent-Length: 0\r\nServer: ClassQueue\r\n\r\n");
    assert(out@ =~= method_not_allowed());
    out
}

/// The response to a request that cannot be served.
pub fn invalid_request() -> (r: Vec<u8>)
    ensures
        r@ == bad_request(),
{
    let mut out: Vec<u8> = Vec::new();
    push_text(&mut out, "HTTP/1.1 400 Bad Request\r\nContent-Length: 0\r\nServer: ClassQueue\r\n\r\n");
    assert(out@ =~= bad_request());
    out
}

/// The response to a static request: the file's bytes, or 404 when there is none.
pub fn static_response(body: Option<Vec<u8>>) -> (r: Vec<u8>)
    ensures
        r@ == match body {
            Some(b) => found(b@),
            None => not_found(),
        },
{
    let mut out: Vec<u8> = Vec::new();
    match body {
        Some(b) => {
            let ghost bv = b@;
            push_text(&mut out, "HTTP/1.1 200 OK\r\nContent-Length: ");
            push_decimal(&mut out, b.len());
            push_text(&mut out, "\r\nServer: ClassQueue\r\n\r\n");
            let mut b = b;
            out.append(&mut b);
            assert(out@ =~= found(bv));
        },
        None => {
            push_text(&mut out, "HTTP/1.1 404 Not Found\r\nContent-Length: 0\r\nServer: ClassQueue\r\n\r\n");
            assert(out@ =~= not_found());
        },
    }
    out
}

/// The `Sec-WebSocket-Accept` value that answers a `Sec-WebSocket-Key`.
pub uninterp spec fn accept_key(key: Seq<u8>) -> Seq<char>;

/// Relies on `tungstenite::handshake::derive_accept_key`: the accept value for a
/// request key (SHA-1 of the key and the protocol's GUID, in base64).
#[verifier::external_body]
fn derive_accept(key: &[u8]) -> (r: String)
    ensures
        r@ == accept_key(key@),
{
    tungstenite::handshake::derive_accept_key(key)
}

/// The `101 Switching Protocols` response to the key `key`.
pub fn accept_response(key: &str) -> (r: Vec<u8>)
    ensures
        r@ == switching_protocols(accept_key(key.spec_bytes())),
{
    let accept = derive_accept(key.as_bytes());
    let mut out: Vec<u8> = Vec::new();
    push_text(&mut out, "HTTP/1.1 101 Switching Protocols\r\nConnection: Upgrade\r\nUpgrade: websocket\r\nSec-WebSocket-Accept: ");
    push_text(&mut out, accept.as_str());
    push_text(&mut out, "\r\n\r\n");
    assert(out@ =~= switching_protocols(accept_key(key.spec_bytes())));
    out
}

/// A path segment that names something inside the static root.
pub open spec fn is_plain_segment(seg: Seq<char>) -> bool {
    seg.len() > 0 && seg != seq!['.'] && seg != seq!['.', '.']
}

pub open spec fn keep_plain(done: Seq<Seq<char>>, seg: Seq<char>) -> Seq<Seq<char>> {
    if is_plain_segment(seg) {
        done.push(seg)
    } else {
        done
    }
}

/// Splitting a path on `/`: the plain segments so far, and the segment in progress.
pub open spec fn split_path(p: Seq<char>) -> (Seq<Seq<char>>, Seq<char>)
    decreases p.len(),
{
    if p.len() == 0 {
        (Seq::empty(), Seq::empty())
    } else {
        let (done, cur) = split_path(p.drop_last());
        if p.last() == '/' {
            (keep_plain(done, cur), Seq::empty())
        } else {
            (done, cur.push(p.last()))
        }
    }
}

/// The plain segments of a request path, in order; empty, `.` and `..` segments
/// are dropped, so that no path leaves the static root.
pub open spec fn path_segments(p: Seq<char>) -> Seq<Seq<char>> {
    keep_plain(split_path(p).0, split_path(p).1)
}

/// Where a static request for `path` is looked up, under the static root.
pub open spec fn static_target(path: Seq<char>) -> Seq<Seq<char>> {
    if path == seq!['/'] {
        seq!["index.html"@]
    } else {
        path_segments(path)
    }
}

pub open spec fn views(v: Seq<String>) -> Seq<Seq<char>> {
    v.map_values(|s: String| s@)
}

fn push_plain(out: &mut Vec<String>, seg: &str)
    ensures
        views(final(out)@) == keep_plain(views(old(out)@), seg@),
{
    let n = seg.unicode_len();
    let dot = n == 1 && seg.get_char(0) == '.';
    let dots = n == 2 && seg.get_char(0) == '.' && seg.get_char(1) == '.';
    if n > 0 && !dot && !dots {
        out.push(seg.to_owned());
        assert(views(final(out)@) =~= views(old(out)@).push(seg@));
    } else {
        if n == 1 {
            assert(seg@ =~= seq!['.']);
        }
        if n == 2 {
            assert(seg@ =~= seq!['.', '.']);
        }
    }
}

/// The plain segments of a request path.
pub fn segments(p: &str) -> (r: Vec<String>)
    ensures
        views(r@) == path_segments(p@),
{
    let n = p.unicode_len();
    let mut out: Vec<String> = Vec::new();
    let mut a: usize = 0;
    let mut i: usize = 0;
    assert(views(out@) =~= Seq::empty());
    assert(p@.subrange(0, 0) =~= Seq::empty());
    while i < n
        invariant
            n == p@.len(),
            0 <= a <= i <= n,
            split_path(p@.subrange(0, i as int)) == (views(out@), p@.subrange(a as int, i as int)),
        decreases n - i,
    {
        assert(p@.subrange(0, i + 1).drop_last() =~= p@.subrange(0, i as int));
        if p.get_char(i) == '/' {
            push_plain(&mut out, p.substring_char(a, i));
            a = i + 1;
            assert(p@.subrange(a as int, i + 1) =~= Seq::empty());
        } else {
            assert(p@.subrange(a as int, i + 1) =~= p@.subrange(a as int, i as int).push(p@[i as int]));
        }
        i = i + 1;
    }
    assert(p@.subrange(0, n as int) =~= p@);
    push_plain(&mut out, p.substring_char(a, n));
    out
}

/// What to do with a complete request head.
pub enum Reply {
    /// Send this `101` response, then speak WebSocket.
    Upgrade(Vec<u8>),
    /// Serve the file at these segments under the static root, then close.
    Static(Vec<String>),
    /// Send this error response, then close.
    Refuse(HandshakeError, Vec<u8>),
}

pub open spec fn reply_matches(r: Reply, req: RequestView) -> bool {
    match check_upgrade(req) {
        Ok(()) => r matches Reply::Upgrade(b) && b@ == switching_protocols(
            accept_key(encode_utf8(first_header(req.headers, "sec-websocket-key"@)->0)),
        ),
        Err(HandshakeError::MethodNotGet) => r matches Reply::Refuse(e, b) && e
            == HandshakeError::MethodNotGet && b@ == method_not_allowed(),
        Err(e) => if first_header(req.headers, "upgrade"@) is None {
            r matches Reply::Static(segs) && views(segs@) == static_target(req.path)
        } else {
            r matches Reply::Refuse(e2, b) && e2 == e && b@ == bad_request()
        },
    }
}

/// Answer a complete request head: upgrade a valid WebSocket request, refuse a
/// method other than `GET` with `405`, treat a `GET` that asks for no upgrade as a
/// static request, and refuse any other invalid upgrade with `400`.
pub fn respond(req: &Request) -> (r: Reply)
    ensures
        reply_matches(r, req@),
{
    match validate(req) {
        Ok(()) => {
            let i = find_header(req, "sec-websocket-key");
            match i {
                Some(i) => Reply::Upgrade(accept_response(req.headers[i].value.as_str())),
                None => Reply::Refuse(HandshakeError::NoSecWsKeyHeader, invalid_request()),
            }
        },
        Err(HandshakeError::MethodNotGet) => Reply::Refuse(HandshakeError::MethodNotGet, invalid_method()),
        Err(e) => {
            if find_header(req, "upgrade").is_none() {
                if same_text(req.path.as_str(), "/") {
                    let mut v: Vec<String> = Vec::new();
                    v.push("index.html".to_owned());
                    proof {
                        reveal_strlit("/");
                        assert(req@.path =~= seq!['/']);
                        assert(views(v@) =~= seq!["index.html"@]);
                    }
                    Reply::Static(v)
                } else {
                    proof {
                        reveal_strlit("/");
                        assert("/"@ =~= seq!['/']);
                    }
                    Reply::Static(segments(req.path.as_str()))
                }
            } else {
                Reply::Refuse(e, invalid_request())
            }
        },
    }
}

/// Where the handshake stands after the bytes received so far.
pub enum HandshakeStep {
    /// The head is not complete yet; read more.
    Incomplete,
    /// The bytes are not a request head, or the head is too long: no request could
    /// be read, so nothing is answered and the connection is torn down.
    Malformed,
    /// The head is complete; bytes from the offset on follow the head and belong
    /// to whatever comes after it.
    Complete(Reply, usize),
}

/// Decide on the bytes received so far, with room for `max_headers` headers and a
/// head of fewer than `max_len` bytes.
pub fn handshake_step(buf: &[u8], max_headers: usize, max_len: usize) -> (r: HandshakeStep)
    ensures
        match parsed_request(buf@, max_headers as nat) {
            ParsedView::Partial => if buf@.len() < max_len {
                r is Incomplete
            } else {
                r is Malformed
            },
            ParsedView::Malformed => r is Malformed,
            ParsedView::Complete(req, n) => r matches HandshakeStep::Complete(reply, m) && reply_matches(
                reply,
                req,
            ) && m == n && m <= buf@.len(),
        },
{
    match parse_head(buf, max_headers) {
        Parsed::Partial => {
            if buf.len() < max_len {
                HandshakeStep::Incomplete
            } else {
                HandshakeStep::Malformed
            }
        },
        Parsed::Malformed => HandshakeStep::Malformed,
        Parsed::Complete(req, n) => HandshakeStep::Complete(respond(&req), n),
    }
}

} // verus!
