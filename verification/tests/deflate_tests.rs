use ws_tool::codec::{BufferStream, FrameCodec, FrameDecoder, FrameConfig, ValidateUtf8Policy};
use ws_tool::deflate::{
    deflate_frame_config, DeflateCodec, DeflateConfig, PMDConfig, WindowBit,
};
use ws_tool::errors::{ProtocolError, WsError};
use ws_tool::frame::{OpCode, OwnedFrame};
use ws_tool::protocol::{HandshakeRequest, HandshakeResponse};

#[test]
fn window_bit_values() {
    assert_eq!(WindowBit::Eight.as_u8(), 8);
    assert_eq!(WindowBit::Fifteen.as_u8(), 15);
    assert!(WindowBit::from_u8(9).is_some());
    assert!(WindowBit::from_u8(7).is_none());
    assert!(WindowBit::from_u8(16).is_none());
    assert_eq!(WindowBit::Nine.as_str(), "9");
}

#[test]
fn offer_header_layout() {
    let c = DeflateConfig {
        server_no_context_takeover: true,
        client_no_context_takeover: false,
        server_max_window_bits: Some(WindowBit::Nine),
        client_max_window_bits: Some(WindowBit::Nine),
    };
    assert_eq!(
        c.build_header(),
        "permessage-deflate; server_no_context_takeover; server_max_window_bits=9; client_max_window_bits=9"
    );
    assert_eq!(DeflateConfig::default().build_header(), "permessage-deflate");
}

#[test]
fn negotiation_parses_offers() {
    let cs = PMDConfig::parse_str(
        "permessage-deflate; client_max_window_bits=9; server_max_window_bits = 9",
    )
    .unwrap();
    assert_eq!(cs.len(), 1);
    assert_eq!(cs[0].client_max_window_bits, 9);
    assert_eq!(cs[0].server_max_window_bits, 9);
    assert!(!cs[0].server_no_context_takeover);

    let cs = PMDConfig::parse_str(
        "permessage-deflate; server_no_context_takeover; client_no_context_takeover",
    )
    .unwrap();
    assert_eq!(cs.len(), 1);
    assert!(cs[0].server_no_context_takeover);
    assert!(cs[0].client_no_context_takeover);
    assert_eq!(cs[0].client_max_window_bits, 15);

    // value-less client_max_window_bits is a capability flag
    let cs = PMDConfig::parse_str("permessage-deflate; client_max_window_bits").unwrap();
    assert_eq!(cs.len(), 1);
    assert_eq!(cs[0].client_max_window_bits, 15);

    // several offers
    let cs = PMDConfig::parse_str(
        "permessage-deflate; client_max_window_bits=9, permessage-deflate",
    )
    .unwrap();
    assert_eq!(cs.len(), 2);

    // another extension is passed over
    let cs = PMDConfig::parse_str("x-webkit-deflate-frame").unwrap();
    assert_eq!(cs.len(), 0);
}

#[test]
fn negotiation_rejects_bad_offers() {
    assert!(PMDConfig::parse_str("permessage-deflate; who_knows").is_err());
    assert!(PMDConfig::parse_str("permessage-deflate; server_max_window_bits=16").is_err());
    assert!(PMDConfig::parse_str("permessage-deflate; server_max_window_bits=7").is_err());
    assert!(PMDConfig::parse_str("permessage-deflate; server_max_window_bits").is_err());
}

fn pair() -> (DeflateCodec, DeflateCodec) {
    let client = DeflateCodec::new(
        FrameCodec::new_with(BufferStream::new(), deflate_frame_config(true)),
        Some(PMDConfig::default()),
        false,
    );
    let server = DeflateCodec::new(
        FrameCodec::new_with(BufferStream::new(), deflate_frame_config(false)),
        Some(PMDConfig::default()),
        true,
    );
    (client, server)
}

#[test]
fn deflate_round_trip_compresses() {
    let (mut client, mut server) = pair();
    let data = "A".repeat(1000);
    let frame = OwnedFrame::text_frame(Some([1, 2, 3, 4]), &data);
    client.send_owned_frame(frame).unwrap();
    let wire = client.stream_mut().take_output();

    // the wire payload is compressed: much shorter than 1000, rsv1 set
    let probe = FrameDecoder {
        config: FrameConfig {
            check_rsv: false,
            mask_send_frame: false,
            validate_utf8: ValidateUtf8Policy::Off,
            max_payload_len: None,
            auto_fragment_size: None,
        },
        ..FrameDecoder::default()
    };
    let mut probe_buf = wire.clone();
    let raw = probe.decode_single(&mut probe_buf).unwrap().unwrap();
    assert!(raw.header().rsv1());
    assert!((raw.payload().len() as usize) < 1000);

    server.stream_mut().feed(&wire);
    let got = server.receive().unwrap().unwrap();
    assert_eq!(got.header().opcode(), OpCode::Text);
    assert_eq!(got.payload().as_slice(), data.as_bytes());
}

#[test]
fn deflate_context_takeover_spans_messages() {
    let (mut client, mut server) = pair();
    for _ in 0..2 {
        let frame = OwnedFrame::text_frame(Some([9, 9, 9, 9]), "hello hello hello");
        client.send_owned_frame(frame).unwrap();
        let wire = client.stream_mut().take_output();
        server.stream_mut().feed(&wire);
        let got = server.receive().unwrap().unwrap();
        assert_eq!(got.payload().as_slice(), b"hello hello hello");
    }
}

#[test]
fn deflate_no_context_takeover_resets_between_messages() {
    let mut conf = PMDConfig::default();
    conf.client_no_context_takeover = true;
    let mut client = DeflateCodec::new(
        FrameCodec::new_with(BufferStream::new(), deflate_frame_config(true)),
        Some(conf),
        false,
    );
    let mut server = DeflateCodec::new(
        FrameCodec::new_with(BufferStream::new(), deflate_frame_config(false)),
        Some(conf),
        true,
    );
    let mut wires: Vec<Vec<u8>> = Vec::new();
    for _ in 0..2 {
        let frame = OwnedFrame::text_frame(Some([4, 3, 2, 1]), "same message body");
        client.send_owned_frame(frame).unwrap();
        wires.push(client.stream_mut().take_output());
    }
    // with the context reset after each message the two transmissions are
    // byte-identical, which they would not be with a carried-over window
    assert_eq!(wires[0].len(), wires[1].len());
    for w in wires {
        server.stream_mut().feed(&w);
        let got = server.receive().unwrap().unwrap();
        assert_eq!(got.payload().as_slice(), b"same message body");
    }
}

#[test]
fn compressed_control_frame_rejected() {
    let (_, mut server) = pair();
    let mut ping = OwnedFrame::ping_frame(None, b"x");
    ping.header_mut().set_rsv1(true);
    let mut wire = Vec::new();
    ws_tool::codec::FrameEncoder::default().encode(&ping, &mut wire);
    server.stream_mut().feed(&wire);
    let err = server.receive().unwrap_err();
    assert!(err.is_protocol_error(1002, ProtocolError::CompressedControlFrame));
}

#[test]
fn compressed_frame_without_negotiation_rejected() {
    let mut server = DeflateCodec::new(
        FrameCodec::new_with(BufferStream::new(), deflate_frame_config(false)),
        None,
        true,
    );
    let mut f = OwnedFrame::text_frame(None, "x");
    f.header_mut().set_rsv1(true);
    let mut wire = Vec::new();
    ws_tool::codec::FrameEncoder::default().encode(&f, &mut wire);
    server.stream_mut().feed(&wire);
    let err = server.receive().unwrap_err();
    assert!(err.is_protocol_error(1002, ProtocolError::NotDeflateDataWhileEnabled));
}

#[test]
fn uncompressed_data_passes_through() {
    let (_, mut server) = pair();
    let f = OwnedFrame::text_frame(None, "plain");
    let mut wire = Vec::new();
    ws_tool::codec::FrameEncoder::default().encode(&f, &mut wire);
    server.stream_mut().feed(&wire);
    let got = server.receive().unwrap().unwrap();
    assert_eq!(got.payload().as_slice(), b"plain");
}

#[test]
fn deflate_factory_and_check_fn() {
    let req = HandshakeRequest {
        method: "GET".to_string(),
        path: "/".to_string(),
        headers: vec![
            ("Upgrade".to_string(), "websocket".to_string()),
            ("Sec-WebSocket-Key".to_string(), "dGhlIHNhbXBsZSBub25jZQ==".to_string()),
            (
                "Sec-WebSocket-Extensions".to_string(),
                "permessage-deflate; client_max_window_bits=9".to_string(),
            ),
        ],
    };
    let server = DeflateCodec::factory(&req, BufferStream::new()).unwrap();
    assert!(server.is_server);
    assert!(server.stream_handler.is_some());
    let handler = server.stream_handler.as_ref().unwrap();
    // the effective bits are the smaller of the two sides
    assert_eq!(handler.config.client_max_window_bits, 9);
    assert_eq!(handler.config.server_max_window_bits, 9);

    let resp = HandshakeResponse {
        code: 101,
        reason: String::new(),
        headers: vec![
            (
                "Sec-WebSocket-Accept".to_string(),
                "s3pPLMBiTxaQ9kYGzzhZRbK+xOo=".to_string(),
            ),
            (
                "Sec-WebSocket-Extensions".to_string(),
                "permessage-deflate".to_string(),
            ),
        ],
    };
    let client = DeflateCodec::check_fn(
        "dGhlIHNhbXBsZSBub25jZQ==".to_string(),
        &resp,
        BufferStream::new(),
    )
    .unwrap();
    assert!(!client.is_server);
    assert!(client.stream_handler.is_some());

    let bad = HandshakeResponse { code: 200, reason: String::new(), headers: vec![] };
    assert!(matches!(
        DeflateCodec::check_fn("k".to_string(), &bad, BufferStream::new()),
        Err(WsError::HandShakeFailed(_))
    ));
}
