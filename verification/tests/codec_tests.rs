use ws_tool::binary::WsBytesCodec;
use ws_tool::codec::{
    is_valid_utf8, valid_close_code, BufferStream, FrameCodec, FrameConfig, FrameDecoder,
    FrameEncoder, Split, ValidateUtf8Policy,
};
use ws_tool::errors::{ProtocolError, WsError};
use ws_tool::frame::{Header, OpCode, OwnedFrame};
use ws_tool::text::WsStringCodec;
use ws_tool::Message;

fn decoder() -> FrameDecoder {
    FrameDecoder::default()
}

fn wire_of(frame: &OwnedFrame) -> Vec<u8> {
    let mut out = Vec::new();
    FrameEncoder::default().encode(frame, &mut out);
    out
}

#[test]
fn encode_decode_round_trip() {
    let frame = OwnedFrame::text_frame(None, "Hello");
    let mut buf = wire_of(&frame);
    let d = decoder();
    let got = d.decode_single(&mut buf).unwrap().unwrap();
    assert_eq!(got.header().opcode(), OpCode::Text);
    assert!(got.header().fin());
    assert_eq!(got.payload().as_slice(), b"Hello");
    assert!(buf.is_empty());
}

#[test]
fn masked_round_trip_recovers_plaintext() {
    let frame = OwnedFrame::text_frame(Some([0x37, 0xfa, 0x21, 0x3d]), "Hello");
    let mut buf = wire_of(&frame);
    // the masked payload is not the plaintext on the wire
    assert_ne!(&buf[6..], b"Hello");
    let d = decoder();
    let mut got = d.decode_single(&mut buf).unwrap().unwrap();
    assert!(got.header().masked());
    got.unmask();
    assert_eq!(got.payload().as_slice(), b"Hello");
}

#[test]
fn incremental_decode_waits_for_whole_frame() {
    let frame = OwnedFrame::binary_frame(None, &[1, 2, 3, 4, 5, 6, 7, 8]);
    let wire = wire_of(&frame);
    let d = decoder();
    let mut buf: Vec<u8> = Vec::new();
    for (i, b) in wire.iter().enumerate() {
        buf.push(*b);
        let r = d.decode_single(&mut buf).unwrap();
        if i + 1 < wire.len() {
            assert!(r.is_none());
            assert_eq!(buf.len(), i + 1, "nothing may be consumed early");
        } else {
            let got = r.unwrap();
            assert_eq!(got.payload().as_slice(), &[1, 2, 3, 4, 5, 6, 7, 8]);
        }
    }
}

#[test]
fn reserved_bits_rejected() {
    let mut h = Header::new(true, true, false, false, None, OpCode::Text, 0);
    h.set_rsv1(true);
    let frame = OwnedFrame::with_raw(h, Vec::new());
    let mut buf = wire_of(&frame);
    let d = decoder();
    let err = d.decode_single(&mut buf).unwrap_err();
    assert!(matches!(
        err,
        WsError::ProtocolError { close_code: 1002, error: ProtocolError::InvalidLeadingBits(_) }
    ));
}

#[test]
fn reserved_opcode_rejected() {
    let mut buf = vec![0x83u8, 0x00];
    let d = decoder();
    let err = d.decode_single(&mut buf).unwrap_err();
    assert!(err.is_protocol_error(1002, ProtocolError::InvalidOpcode(3)));
}

#[test]
fn oversized_length_high_bit_rejected() {
    let mut buf = vec![0x82u8, 127, 0x80, 0, 0, 0, 0, 0, 0, 0];
    let d = decoder();
    let err = d.decode_single(&mut buf).unwrap_err();
    assert!(err.is_protocol_error(1002, ProtocolError::InvalidLeadingLen(127)));
}

#[test]
fn max_payload_len_enforced() {
    let mut config = FrameConfig::default();
    config.max_payload_len = Some(4);
    let d = FrameDecoder { config, ..FrameDecoder::default() };
    let frame = OwnedFrame::binary_frame(None, &[0; 5]);
    let mut buf = wire_of(&frame);
    let err = d.decode_single(&mut buf).unwrap_err();
    assert!(err.is_protocol_error(1009, ProtocolError::PayloadTooLarge(4)));
}

#[test]
fn continuation_without_start_rejected() {
    let mut d = decoder();
    let frame = OwnedFrame::new(OpCode::Continue, None, b"x");
    let mut buf = wire_of(&frame);
    let err = d.decode(&mut buf).unwrap_err();
    assert!(err.is_protocol_error(1002, ProtocolError::MissInitialFragmentedFrame));
}

#[test]
fn data_frame_during_fragmentation_rejected() {
    let mut d = decoder();
    let mut first = OwnedFrame::text_frame(None, "he");
    first.header_mut().set_fin(false);
    let mut buf = wire_of(&first);
    assert!(d.decode(&mut buf).unwrap().is_none());
    let second = OwnedFrame::text_frame(None, "llo");
    let mut buf2 = wire_of(&second);
    let err = d.decode(&mut buf2).unwrap_err();
    assert!(err.is_protocol_error(1002, ProtocolError::NotContinueFrameAfterFragmented));
}

#[test]
fn fragmented_message_reassembled() {
    let mut d = decoder();
    let mut first = OwnedFrame::text_frame(None, "Hel");
    first.header_mut().set_fin(false);
    let last = OwnedFrame::new(OpCode::Continue, None, b"lo");
    let mut buf = wire_of(&first);
    buf.extend_from_slice(&wire_of(&last));
    assert!(d.decode(&mut buf).unwrap().is_none());
    let got = d.decode(&mut buf).unwrap().unwrap();
    assert_eq!(got.header().opcode(), OpCode::Text);
    assert!(got.header().fin());
    assert_eq!(got.payload().as_slice(), b"Hello");
}

#[test]
fn control_frame_interleaves_fragments() {
    let mut d = decoder();
    let mut first = OwnedFrame::binary_frame(None, &[1, 2]);
    first.header_mut().set_fin(false);
    let ping = OwnedFrame::ping_frame(None, b"hi");
    let last = OwnedFrame::new(OpCode::Continue, None, &[3]);
    let mut buf = wire_of(&first);
    buf.extend_from_slice(&wire_of(&ping));
    buf.extend_from_slice(&wire_of(&last));
    assert!(d.decode(&mut buf).unwrap().is_none());
    let got_ping = d.decode(&mut buf).unwrap().unwrap();
    assert_eq!(got_ping.header().opcode(), OpCode::Ping);
    assert_eq!(got_ping.payload().as_slice(), b"hi");
    let got = d.decode(&mut buf).unwrap().unwrap();
    assert_eq!(got.header().opcode(), OpCode::Binary);
    assert_eq!(got.payload().as_slice(), &[1, 2, 3]);
}

#[test]
fn fragmented_control_frame_rejected() {
    let mut d = decoder();
    let mut ping = OwnedFrame::ping_frame(None, b"");
    ping.header_mut().set_fin(false);
    let mut buf = wire_of(&ping);
    let err = d.decode(&mut buf).unwrap_err();
    assert!(err.is_protocol_error(1002, ProtocolError::FragmentedControlFrame));
}

#[test]
fn oversized_control_frame_rejected() {
    let mut d = decoder();
    let frame = OwnedFrame::new(OpCode::Pong, None, &[0u8; 126]);
    let mut buf = wire_of(&frame);
    let err = d.decode(&mut buf).unwrap_err();
    assert!(err.is_protocol_error(1002, ProtocolError::ControlFrameTooBig(126)));
}

#[test]
fn close_code_1000_accepted() {
    let mut d = decoder();
    let frame = OwnedFrame::close_frame(None, Some(1000u16), b"bye");
    let mut buf = wire_of(&frame);
    let got = d.decode(&mut buf).unwrap().unwrap();
    assert_eq!(got.header().opcode(), OpCode::Close);
    assert_eq!(got.payload().as_slice(), &[0x03, 0xe8, b'b', b'y', b'e']);
}

#[test]
fn close_code_1004_rejected() {
    let mut d = decoder();
    let frame = OwnedFrame::close_frame(None, Some(1004u16), b"");
    let mut buf = wire_of(&frame);
    let err = d.decode(&mut buf).unwrap_err();
    assert!(err.is_protocol_error(1002, ProtocolError::InvalidCloseCode(1004)));
}

#[test]
fn close_one_byte_payload_rejected() {
    let mut d = decoder();
    let h = Header::new(true, false, false, false, None, OpCode::Close, 1);
    let frame = OwnedFrame::with_raw(h, vec![0x03]);
    let mut buf = wire_of(&frame);
    let err = d.decode(&mut buf).unwrap_err();
    assert!(err.is_protocol_error(1002, ProtocolError::InvalidCloseFramePayload));
}

#[test]
fn close_reason_must_be_utf8() {
    let mut d = decoder();
    let frame = OwnedFrame::close_frame(None, Some(1000u16), &[0xc3, 0x28]);
    let mut buf = wire_of(&frame);
    let err = d.decode(&mut buf).unwrap_err();
    assert!(err.is_protocol_error(1007, ProtocolError::InvalidUtf8));
}

#[test]
fn invalid_utf8_text_rejected() {
    let mut d = decoder();
    let frame = OwnedFrame::new(OpCode::Text, None, &[0xc3, 0x28]);
    let mut buf = wire_of(&frame);
    let err = d.decode(&mut buf).unwrap_err();
    assert!(err.is_protocol_error(1007, ProtocolError::InvalidUtf8));
}

#[test]
fn split_code_point_across_fragments_accepted() {
    let mut d = decoder();
    let mut first = OwnedFrame::new(OpCode::Text, None, &[0xc3]);
    first.header_mut().set_fin(false);
    let last = OwnedFrame::new(OpCode::Continue, None, &[0xa9]);
    let mut buf = wire_of(&first);
    buf.extend_from_slice(&wire_of(&last));
    assert!(d.decode(&mut buf).unwrap().is_none());
    let got = d.decode(&mut buf).unwrap().unwrap();
    assert_eq!(got.payload().as_slice(), "\u{e9}".as_bytes());
}

#[test]
fn utf8_validator_matches_std() {
    let cases: Vec<Vec<u8>> = vec![
        b"".to_vec(),
        b"plain ascii".to_vec(),
        "\u{e9}\u{4e16}\u{1f600}".as_bytes().to_vec(),
        vec![0xc3, 0x28],
        vec![0x80],
        vec![0xed, 0xa0, 0x80], // surrogate
        vec![0xc0, 0xaf],       // overlong
        vec![0xf4, 0x90, 0x80, 0x80], // above U+10FFFF
        vec![0xe2, 0x82],       // truncated
    ];
    for c in cases {
        assert_eq!(is_valid_utf8(&c), std::str::from_utf8(&c).is_ok(), "case {:?}", c);
    }
}

#[test]
fn close_code_validity_table() {
    assert!(valid_close_code(1000));
    assert!(valid_close_code(1003));
    assert!(valid_close_code(1007));
    assert!(valid_close_code(1014));
    assert!(valid_close_code(3000));
    assert!(valid_close_code(4999));
    assert!(!valid_close_code(999));
    assert!(!valid_close_code(1004));
    assert!(!valid_close_code(1005));
    assert!(!valid_close_code(1006));
    assert!(!valid_close_code(1015));
    assert!(!valid_close_code(2999));
    assert!(!valid_close_code(5000));
}

#[test]
fn client_frames_are_masked_servers_are_not() {
    let client = FrameEncoder::default();
    let frames = client.make_frames(OpCode::Text, b"hi");
    assert_eq!(frames.len(), 1);
    assert!(frames[0].header().masked());
    let mut f = frames[0].clone();
    f.unmask();
    assert_eq!(f.payload().as_slice(), b"hi");

    let mut config = FrameConfig::default();
    config.mask_send_frame = false;
    let server = FrameEncoder { config };
    let frames = server.make_frames(OpCode::Text, b"hi");
    assert_eq!(frames.len(), 1);
    assert!(!frames[0].header().masked());
    assert_eq!(frames[0].payload().as_slice(), b"hi");
}

#[test]
fn auto_fragmentation_three_frames() {
    let mut config = FrameConfig::default();
    config.mask_send_frame = true;
    config.auto_fragment_size = Some(65536);
    let data: Vec<u8> = (0..131073u32).map(|i| (i % 251) as u8).collect();

    let mut client = FrameCodec::new_with(BufferStream::new(), config);
    client.send(OpCode::Binary, &data).unwrap();
    let wire = client.stream_mut().take_output();

    // three frames on the wire: binary fin=0, continue fin=0, continue fin=1
    let probe = FrameDecoder { config: FrameConfig::default(), ..FrameDecoder::default() };
    let mut probe_buf = wire.clone();
    let f1 = probe.decode_single(&mut probe_buf).unwrap().unwrap();
    let f2 = probe.decode_single(&mut probe_buf).unwrap().unwrap();
    let f3 = probe.decode_single(&mut probe_buf).unwrap().unwrap();
    assert!(probe_buf.is_empty());
    assert_eq!(f1.header().opcode(), OpCode::Binary);
    assert!(!f1.header().fin());
    assert_eq!(f2.header().opcode(), OpCode::Continue);
    assert!(!f2.header().fin());
    assert_eq!(f3.header().opcode(), OpCode::Continue);
    assert!(f3.header().fin());

    // the server reassembles identical bytes
    let mut server = FrameCodec::new_with(BufferStream::new(), FrameConfig::default());
    server.stream_mut().feed(&wire);
    assert!(server.receive().unwrap().is_none());
    assert!(server.receive().unwrap().is_none());
    let msg = server.receive().unwrap().unwrap();
    assert_eq!(msg.payload().as_slice(), data.as_slice());
}

#[test]
fn string_codec_echo() {
    let mut client = WsStringCodec::new_with(BufferStream::new(), FrameConfig::default(), true);
    client.send(Message::new(OpCode::Text, "Hello".to_string())).unwrap();
    let wire = client.stream_mut().take_output();

    let mut server_config = FrameConfig::default();
    server_config.mask_send_frame = false;
    let mut server = WsStringCodec::new_with(BufferStream::new(), server_config, true);
    server.stream_mut().feed(&wire);
    let msg = server.receive().unwrap().unwrap();
    assert_eq!(msg.code, OpCode::Text);
    assert_eq!(msg.data, "Hello");
    assert_eq!(msg.close_code, None);

    // the echo comes back unmasked and decodes on the client
    server.send(Message::new(OpCode::Text, msg.into())).unwrap();
    let back = server.stream_mut().take_output();
    client.stream_mut().feed(&back);
    let echoed = client.receive().unwrap().unwrap();
    assert_eq!(echoed.data, "Hello");
}

#[test]
fn string_codec_close_then_invalid_state() {
    let mut client = WsStringCodec::new_with(BufferStream::new(), FrameConfig::default(), true);
    client
        .send(Message::new_close(1000, "bye".to_string()))
        .unwrap();
    let wire = client.stream_mut().take_output();

    let mut server = WsStringCodec::new_with(BufferStream::new(), FrameConfig::default(), true);
    server.stream_mut().feed(&wire);
    let msg = server.receive().unwrap().unwrap();
    assert_eq!(msg.code, OpCode::Close);
    assert_eq!(msg.close_code, Some(1000));
    assert_eq!(msg.data, "bye");
    let err = server.receive().unwrap_err();
    assert!(matches!(err, WsError::InvalidConnState(_)));
}

#[test]
fn send_after_close_fails() {
    let mut c = FrameCodec::new(BufferStream::new());
    let close = OwnedFrame::close_frame(Some([1, 2, 3, 4]), Some(1000u16), b"");
    c.send_owned_frame(close).unwrap();
    let err = c.send(OpCode::Text, b"late").unwrap_err();
    assert!(matches!(err, WsError::InvalidConnState(_)));
}

#[test]
fn split_halves_work_independently() {
    let mut whole = FrameCodec::new(BufferStream::new());
    whole.stream_mut().feed(&{
        let f = OwnedFrame::text_frame(None, "in");
        let mut out = Vec::new();
        FrameEncoder::default().encode(&f, &mut out);
        out
    });
    let (mut read, mut write) = whole.split();
    let got = read.receive().unwrap().unwrap();
    assert_eq!(got.payload().as_slice(), b"in");
    write
        .send_owned_frame(OwnedFrame::text_frame(None, "out"))
        .unwrap();
    let out = write.take_output();
    assert!(!out.is_empty());
    let d = FrameDecoder::default();
    let mut buf = out;
    let sent = d.decode_single(&mut buf).unwrap().unwrap();
    assert_eq!(sent.payload().as_slice(), b"out");
}

#[test]
fn utf8_policy_flags() {
    assert!(!ValidateUtf8Policy::Off.is_on());
    assert!(ValidateUtf8Policy::Fast.is_on());
    assert!(ValidateUtf8Policy::Strict.is_on());
}

#[test]
fn bytes_codec_echo() {
    let mut client = WsBytesCodec::new(BufferStream::new());
    client
        .send(Message::new(OpCode::Binary, vec![1u8, 2, 3]))
        .unwrap();
    let wire = client.stream_mut().take_output();

    let mut server_config = FrameConfig::default();
    server_config.mask_send_frame = false;
    let mut server = WsBytesCodec::new_with(BufferStream::new(), server_config);
    server.stream_mut().feed(&wire);
    let msg = server.receive().unwrap().unwrap();
    assert_eq!(msg.code, OpCode::Binary);
    assert_eq!(msg.data, vec![1u8, 2, 3]);
    assert_eq!(msg.close_code, None);
}

#[test]
fn bytes_codec_close_message() {
    let mut client = WsBytesCodec::new(BufferStream::new());
    client
        .send(Message::new_close(1000, b"bye".to_vec()))
        .unwrap();
    let wire = client.stream_mut().take_output();

    let mut server = WsBytesCodec::new(BufferStream::new());
    server.stream_mut().feed(&wire);
    let msg = server.receive().unwrap().unwrap();
    assert_eq!(msg.code, OpCode::Close);
    assert_eq!(msg.close_code, Some(1000));
    assert_eq!(msg.data, b"bye".to_vec());
}
