use class_queue::handshake::{
    accept_response, handshake_step, invalid_method, invalid_request, respond, segments, static_response, validate,
    Header, HandshakeError, HandshakeStep, Reply, Request,
};

fn request(method: &str, version: u8, headers: &[(&str, &str)]) -> Request {
    Request {
        method: method.to_string(),
        path: "/chat".to_string(),
        version,
        headers: headers
            .iter()
            .map(|(n, v)| Header { name: n.to_string(), value: v.to_string() })
            .collect(),
    }
}

const GOOD: [(&str, &str); 5] = [
    ("Host", "example.com"),
    ("Upgrade", "websocket"),
    ("Connection", "Upgrade"),
    ("Sec-WebSocket-Key", "dGhlIHNhbXBsZSBub25jZQ=="),
    ("Sec-WebSocket-Version", "13"),
];

fn without(name: &str) -> Vec<(&'static str, &'static str)> {
    GOOD.iter().filter(|(n, _)| *n != name).cloned().collect()
}

fn with(name: &'static str, value: &'static str) -> Vec<(&'static str, &'static str)> {
    GOOD.iter().map(|(n, v)| if *n == name { (*n, value) } else { (*n, *v) }).collect()
}

#[test]
fn valid_upgrade_passes() {
    assert_eq!(validate(&request("GET", 1, &GOOD)), Ok(()));
}

#[test]
fn missing_key_has_its_own_reason() {
    let buf = b"GET /chat HTTP/1.1\r\nHost: example.com\r\nUpgrade: websocket\r\nConnection: Upgrade\r\nSec-WebSocket-Version: 13\r\n\r\n";
    match handshake_step(buf, 16, 8192) {
        HandshakeStep::Complete(Reply::Refuse(e, resp), _) => {
            assert_eq!(e, HandshakeError::NoSecWsKeyHeader);
            assert!(String::from_utf8(resp).unwrap().starts_with("HTTP/1.1 400"));
        }
        _ => panic!("a request without a key must be refused"),
    }
    assert_eq!(validate(&request("GET", 1, &without("Sec-WebSocket-Key"))), Err(HandshakeError::NoSecWsKeyHeader));
}

#[test]
fn post_gets_405_with_allow() {
    let buf = b"POST /chat HTTP/1.1\r\nHost: example.com\r\n\r\n";
    match handshake_step(buf, 16, 8192) {
        HandshakeStep::Complete(Reply::Refuse(e, resp), _) => {
            assert_eq!(e, HandshakeError::MethodNotGet);
            let text = String::from_utf8(resp).unwrap();
            assert!(text.contains("405"));
            assert!(text.contains("Allow: GET"));
            assert!(text.contains("Content-Length: 0"));
            assert!(text.ends_with("\r\n\r\n"));
        }
        _ => panic!("POST must be refused"),
    }
}

#[test]
fn invalid_method_bytes() {
    assert_eq!(
        invalid_method(),
        b"HTTP/1.1 405 Method Not Allowed\r\nAllow: GET\r\nContent-Length: 0\r\nServer: ClassQueue\r\n\r\n".to_vec()
    );
    assert_eq!(
        invalid_request(),
        b"HTTP/1.1 400 Bad Request\r\nContent-Length: 0\r\nServer: ClassQueue\r\n\r\n".to_vec()
    );
}

#[test]
fn each_rule_has_its_reason() {
    assert_eq!(validate(&request("PUT", 1, &GOOD)), Err(HandshakeError::MethodNotGet));
    assert_eq!(validate(&request("get", 1, &GOOD)), Err(HandshakeError::MethodNotGet));
    assert_eq!(validate(&request("GET", 0, &GOOD)), Err(HandshakeError::UnsupportedHttpVersion));
    assert_eq!(
        validate(&request("GET", 1, &with("Sec-WebSocket-Version", "8"))),
        Err(HandshakeError::UnsupportedWebsocketVersion)
    );
    assert_eq!(validate(&request("GET", 1, &without("Sec-WebSocket-Version"))), Ok(()));
    assert_eq!(validate(&request("GET", 1, &without("Upgrade"))), Err(HandshakeError::NoUpgradeHeader));
    assert_eq!(validate(&request("GET", 1, &with("Upgrade", "h2c"))), Err(HandshakeError::NoWsUpgradeHeader));
    assert_eq!(validate(&request("GET", 1, &without("Connection"))), Err(HandshakeError::NoConnectionHeader));
    assert_eq!(
        validate(&request("GET", 1, &with("Connection", "keep-alive"))),
        Err(HandshakeError::NoWsConnectionHeader)
    );
}

#[test]
fn checks_come_in_order() {
    // both the method and the key are wrong: the method is reported
    assert_eq!(validate(&request("POST", 1, &without("Sec-WebSocket-Key"))), Err(HandshakeError::MethodNotGet));
    // both the version and the key are wrong: the version is reported
    assert_eq!(validate(&request("GET", 0, &without("Sec-WebSocket-Key"))), Err(HandshakeError::UnsupportedHttpVersion));
}

#[test]
fn names_and_tokens_ignore_case() {
    let h = [
        ("host", "example.com"),
        ("UPGRADE", "WebSocket"),
        ("connection", "keep-alive, UPGRADE"),
        ("sec-websocket-key", "abc"),
    ];
    assert_eq!(validate(&request("GET", 1, &h)), Ok(()));
    let h2 = [
        ("Upgrade", "websocket"),
        ("Connection", "keep-alive,upgrade"),
        ("Sec-WebSocket-Key", "abc"),
    ];
    assert_eq!(validate(&request("GET", 1, &h2)), Ok(()));
}

#[test]
fn token_must_be_whole() {
    assert_eq!(
        validate(&request("GET", 1, &with("Connection", "upgrades"))),
        Err(HandshakeError::NoWsConnectionHeader)
    );
    assert_eq!(validate(&request("GET", 1, &with("Upgrade", "websockets"))), Err(HandshakeError::NoWsUpgradeHeader));
}

#[test]
fn accept_key_from_the_protocol_example() {
    let r = accept_response("dGhlIHNhbXBsZSBub25jZQ==");
    assert_eq!(
        String::from_utf8(r).unwrap(),
        "HTTP/1.1 101 Switching Protocols\r\nConnection: Upgrade\r\nUpgrade: websocket\r\nSec-WebSocket-Accept: s3pPLMBiTxaQ9kYGzzhZRbK+xOo=\r\n\r\n"
    );
}

#[test]
fn valid_request_bytes_upgrade() {
    let buf = b"GET /chat HTTP/1.1\r\nHost: server.example.com\r\nUpgrade: websocket\r\nConnection: Upgrade\r\nSec-WebSocket-Key: dGhlIHNhbXBsZSBub25jZQ==\r\nSec-WebSocket-Version: 13\r\n\r\n";
    match handshake_step(buf, 16, 8192) {
        HandshakeStep::Complete(Reply::Upgrade(resp), _) => {
            assert!(String::from_utf8(resp).unwrap().contains("Sec-WebSocket-Accept: s3pPLMBiTxaQ9kYGzzhZRbK+xOo=\r\n"));
        }
        _ => panic!("a valid request must be upgraded"),
    }
}

#[test]
fn partial_head_waits_for_more() {
    let buf = b"GET /chat HTTP/1.1\r\nHost: x";
    assert!(matches!(handshake_step(buf, 16, 8192), HandshakeStep::Incomplete));
    assert!(matches!(handshake_step(buf, 16, 10), HandshakeStep::Malformed));
}

#[test]
fn garbage_is_malformed() {
    // no request could be read: nothing is answered
    assert!(matches!(handshake_step(b"\x01\x02 nonsense\r\n\r\n", 16, 8192), HandshakeStep::Malformed));
}

#[test]
fn too_many_headers_is_malformed() {
    let buf = b"GET / HTTP/1.1\r\nA: 1\r\nB: 2\r\nC: 3\r\n\r\n";
    assert!(matches!(handshake_step(buf, 2, 8192), HandshakeStep::Malformed));
}

#[test]
fn plain_get_is_static() {
    let buf = b"GET /css/../site.css HTTP/1.1\r\nHost: x\r\n\r\n";
    match handshake_step(buf, 16, 8192) {
        HandshakeStep::Complete(Reply::Static(segs), _) => assert_eq!(segs, vec!["css".to_string(), "site.css".to_string()]),
        _ => panic!("a plain GET is a static request"),
    }
    let mut root = request("GET", 1, &[("Host", "x")]);
    root.path = "/".to_string();
    match respond(&root) {
        Reply::Static(segs) => assert_eq!(segs, vec!["index.html".to_string()]),
        _ => panic!("the root is index.html"),
    }
}

#[test]
fn path_segments_stay_inside_the_root() {
    assert_eq!(segments("/a/./b//c/"), vec!["a", "b", "c"]);
    assert_eq!(segments("../../etc/passwd"), vec!["etc", "passwd"]);
    assert_eq!(segments(""), Vec::<String>::new());
    assert_eq!(segments("..."), vec!["..."]);
}

#[test]
fn static_responses() {
    assert_eq!(
        String::from_utf8(static_response(Some(b"hello".to_vec()))).unwrap(),
        "HTTP/1.1 200 OK\r\nContent-Length: 5\r\nServer: ClassQueue\r\n\r\nhello"
    );
    assert_eq!(
        String::from_utf8(static_response(Some(vec![b'x'; 1234]))).unwrap().lines().nth(1),
        Some("Content-Length: 1234")
    );
    assert_eq!(
        String::from_utf8(static_response(None)).unwrap(),
        "HTTP/1.1 404 Not Found\r\nContent-Length: 0\r\nServer: ClassQueue\r\n\r\n"
    );
}

#[test]
fn bytes_after_the_head_are_kept() {
    let head = b"GET /chat HTTP/1.1\r\nUpgrade: websocket\r\nConnection: Upgrade\r\nSec-WebSocket-Key: dGhlIHNhbXBsZSBub25jZQ==\r\n\r\n";
    let mut buf = head.to_vec();
    buf.extend_from_slice(&[0x81, 0x02, b'h', b'i']);
    match handshake_step(&buf, 16, 8192) {
        HandshakeStep::Complete(Reply::Upgrade(_), n) => {
            assert_eq!(n, head.len());
            assert_eq!(&buf[n..], &[0x81, 0x02, b'h', b'i']);
        }
        _ => panic!("a valid request must be upgraded"),
    }
}
