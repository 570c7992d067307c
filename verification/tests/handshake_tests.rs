use ws_tool::protocol::{
    build_server_response, cal_accept_key, check_handshake_response, check_uri, eq_bytes,
    eq_ignore_ascii_case, find_header_end, gen_key, handle_handshake, join_with_comma, push_dec,
    standard_handshake_req_check, standard_handshake_resp_check, HandshakeRequest,
    HandshakeResponse, Mode, Uri,
};
use ws_tool::{ClientBuilder, Message};
use ws_tool::errors::WsError;
use ws_tool::frame::OpCode;

#[test]
fn accept_key_rfc_sample() {
    // the worked example of RFC 6455 section 1.3
    assert_eq!(
        cal_accept_key("dGhlIHNhbXBsZSBub25jZQ=="),
        "s3pPLMBiTxaQ9kYGzzhZRbK+xOo="
    );
}

#[test]
fn generated_keys_are_base64_of_16_bytes() {
    let k1 = gen_key();
    let k2 = gen_key();
    assert_eq!(k1.len(), 24);
    assert_eq!(k2.len(), 24);
    let decoded = base64::Engine::decode(&base64::engine::general_purpose::STANDARD, &k1).unwrap();
    assert_eq!(decoded.len(), 16);
}

#[test]
fn byte_comparisons() {
    assert!(eq_bytes(b"abc", b"abc"));
    assert!(!eq_bytes(b"abc", b"abd"));
    assert!(!eq_bytes(b"abc", b"ab"));
    assert!(eq_ignore_ascii_case(b"Upgrade", b"uPGRADE"));
    assert!(!eq_ignore_ascii_case(b"Upgrade", b"Upgrad"));
}

#[test]
fn header_end_detection() {
    assert_eq!(find_header_end(b"HTTP/1.1 101\r\n\r\nrest"), Some(16));
    assert_eq!(find_header_end(b"HTTP/1.1 101\r\n"), None);
    assert_eq!(find_header_end(b""), None);
}

#[test]
fn push_dec_digits() {
    let mut out = Vec::new();
    push_dec(0, &mut out);
    push_dec(13, &mut out);
    push_dec(65535, &mut out);
    assert_eq!(out, b"01365535".to_vec());
}

#[test]
fn join_lists() {
    assert_eq!(join_with_comma(&vec![]), b"".to_vec());
    assert_eq!(join_with_comma(&vec!["a".to_string()]), b"a".to_vec());
    assert_eq!(
        join_with_comma(&vec!["a".to_string(), "bc".to_string()]),
        b"a, bc".to_vec()
    );
}

#[test]
fn uri_scheme_check() {
    let uri = Uri {
        scheme: "ws".to_string(),
        host: "example.com".to_string(),
        port: None,
        path_and_query: "/chat".to_string(),
    };
    assert!(matches!(check_uri(&uri), Ok(Mode::WS)));
    let tls = Uri { scheme: "WSS".to_string(), ..uri.clone() };
    assert!(matches!(check_uri(&tls), Ok(Mode::WSS)));
    let bad = Uri { scheme: "http".to_string(), ..uri };
    assert!(matches!(check_uri(&bad), Err(WsError::InvalidUri(_))));
}

#[test]
fn default_ports() {
    assert_eq!(Mode::WS.default_port(), 80);
    assert_eq!(Mode::WSS.default_port(), 443);
}

#[test]
fn client_request_bytes() {
    let uri = Uri {
        scheme: "ws".to_string(),
        host: "example.com".to_string(),
        port: None,
        path_and_query: "/chat".to_string(),
    };
    let builder = ClientBuilder::new().protocol("chat".to_string());
    let req = builder.build_request(&uri, Mode::WS, "dGhlIHNhbXBsZSBub25jZQ==");
    let text = String::from_utf8(req).unwrap();
    assert!(text.starts_with("GET /chat HTTP/1.1\r\n"));
    assert!(text.contains("Host: example.com:80\r\n"));
    assert!(text.contains("Upgrade: websocket\r\n"));
    assert!(text.contains("Connection: Upgrade\r\n"));
    assert!(text.contains("Sec-WebSocket-Key: dGhlIHNhbXBsZSBub25jZQ==\r\n"));
    assert!(text.contains("Sec-WebSocket-Version: 13\r\n"));
    assert!(text.contains("Sec-WebSocket-Protocol: chat\r\n"));
    assert!(text.ends_with("\r\n\r\n"));
}

#[test]
fn response_check_accepts_matching_key() {
    let resp = HandshakeResponse {
        code: 101,
        reason: "Switching Protocols".to_string(),
        headers: vec![(
            "Sec-WebSocket-Accept".to_string(),
            "s3pPLMBiTxaQ9kYGzzhZRbK+xOo=".to_string(),
        )],
    };
    assert!(standard_handshake_resp_check("dGhlIHNhbXBsZSBub25jZQ==", &resp).is_ok());
}

#[test]
fn response_check_rejects_wrong_key_or_status() {
    let resp = HandshakeResponse {
        code: 101,
        reason: String::new(),
        headers: vec![("sec-websocket-accept".to_string(), "nope".to_string())],
    };
    assert!(matches!(
        standard_handshake_resp_check("dGhlIHNhbXBsZSBub25jZQ==", &resp),
        Err(WsError::HandShakeFailed(_))
    ));
    let not_101 = HandshakeResponse { code: 200, reason: String::new(), headers: vec![] };
    assert!(matches!(
        standard_handshake_resp_check("key", &not_101),
        Err(WsError::HandShakeFailed(_))
    ));
}

#[test]
fn full_client_response_parse_and_check() {
    let raw = b"HTTP/1.1 101 Switching Protocols\r\nUpgrade: websocket\r\nConnection: Upgrade\r\nSec-WebSocket-Accept: s3pPLMBiTxaQ9kYGzzhZRbK+xOo=\r\n\r\n\x81\x05Hello";
    let (resp, leftover) = check_handshake_response("dGhlIHNhbXBsZSBub25jZQ==", raw).unwrap();
    assert_eq!(resp.code, 101);
    assert_eq!(&raw[leftover..leftover + 2], &[0x81, 0x05]);
}

#[test]
fn request_check_needs_upgrade_and_key() {
    let good = HandshakeRequest {
        method: "GET".to_string(),
        path: "/".to_string(),
        headers: vec![
            ("Upgrade".to_string(), "WebSocket".to_string()),
            ("Sec-WebSocket-Key".to_string(), "dGhlIHNhbXBsZSBub25jZQ==".to_string()),
        ],
    };
    let accept = standard_handshake_req_check(&good).unwrap();
    assert_eq!(accept, "s3pPLMBiTxaQ9kYGzzhZRbK+xOo=");

    let no_upgrade = HandshakeRequest {
        method: "GET".to_string(),
        path: "/".to_string(),
        headers: vec![("Sec-WebSocket-Key".to_string(), "x".to_string())],
    };
    assert!(standard_handshake_req_check(&no_upgrade).is_err());

    let empty_key = HandshakeRequest {
        method: "GET".to_string(),
        path: "/".to_string(),
        headers: vec![
            ("Upgrade".to_string(), "websocket".to_string()),
            ("Sec-WebSocket-Key".to_string(), "".to_string()),
        ],
    };
    assert!(standard_handshake_req_check(&empty_key).is_err());
}

#[test]
fn server_handshake_round() {
    let raw = b"GET /chat HTTP/1.1\r\nHost: example.com\r\nUpgrade: websocket\r\nConnection: Upgrade\r\nSec-WebSocket-Key: dGhlIHNhbXBsZSBub25jZQ==\r\n\r\n\x89\x00";
    let sh = handle_handshake(raw).unwrap();
    assert_eq!(sh.accept.as_deref(), Some("s3pPLMBiTxaQ9kYGzzhZRbK+xOo="));
    let resp = String::from_utf8(sh.response.clone()).unwrap();
    assert!(resp.starts_with("HTTP/1.1 101 Switching Protocols\r\n"));
    assert!(resp.contains("Sec-WebSocket-Accept: s3pPLMBiTxaQ9kYGzzhZRbK+xOo=\r\n"));
    // the bytes past the head belong to the frame stream
    assert_eq!(&raw[sh.leftover_start..], &[0x89, 0x00]);

    let expected = build_server_response("s3pPLMBiTxaQ9kYGzzhZRbK+xOo=");
    assert_eq!(sh.response, expected);
}

#[test]
fn server_handshake_rejects_plain_http() {
    let raw = b"GET / HTTP/1.1\r\nHost: example.com\r\n\r\n";
    let sh = handle_handshake(raw).unwrap();
    assert!(sh.accept.is_none());
    let resp = String::from_utf8(sh.response).unwrap();
    assert!(resp.starts_with("HTTP/1.1 400 Bad Request\r\n"));
}

#[test]
fn builder_collects_fields() {
    let b = ClientBuilder::new()
        .protocol("a".to_string())
        .extension("permessage-deflate".to_string())
        .version(13)
        .header("X-Trace".to_string(), "1".to_string());
    assert_eq!(b.protocols, vec!["a".to_string()]);
    assert_eq!(b.extensions, vec!["permessage-deflate".to_string()]);
    assert_eq!(b.version, 13);
    assert_eq!(b.headers, vec![("X-Trace".to_string(), "1".to_string())]);
}

#[test]
fn message_constructors() {
    let m = Message::new(OpCode::Close, "done".to_string());
    assert_eq!(m.close_code, Some(1000));
    let m = Message::new(OpCode::Text, "t".to_string());
    assert_eq!(m.close_code, None);
    let m = Message::new_close(4001, "app".to_string());
    assert_eq!(m.code, OpCode::Close);
    assert_eq!(m.close_code, Some(4001));
    assert_eq!(m.into(), "app".to_string());
}

#[test]
fn last_key_header_wins() {
    let req = HandshakeRequest {
        method: "GET".to_string(),
        path: "/".to_string(),
        headers: vec![
            ("Upgrade".to_string(), "websocket".to_string()),
            ("Sec-WebSocket-Key".to_string(), "Zmlyc3Qta2V5LWlnbm9yZWQ=".to_string()),
            ("Sec-WebSocket-Key".to_string(), "dGhlIHNhbXBsZSBub25jZQ==".to_string()),
        ],
    };
    let accept = standard_handshake_req_check(&req).unwrap();
    assert_eq!(accept, cal_accept_key("dGhlIHNhbXBsZSBub25jZQ=="));
}

#[test]
fn gen_keys_differ_between_calls() {
    // twenty fresh keys: at least two distinct ones, or the generator is stuck
    let keys: Vec<String> = (0..20).map(|_| gen_key()).collect();
    assert!(keys.iter().any(|k| k != &keys[0]));
}
