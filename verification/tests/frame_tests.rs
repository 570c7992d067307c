use ws_tool::frame::{
    apply_mask, apply_mask_fast32, get_bit, parse_opcode, set_bit, Header, OpCode, OwnedFrame,
};

#[test]
fn opcode_wire_values() {
    assert_eq!(OpCode::Continue.as_u8(), 0);
    assert_eq!(OpCode::Text.as_u8(), 1);
    assert_eq!(OpCode::Binary.as_u8(), 2);
    assert_eq!(OpCode::Close.as_u8(), 8);
    assert_eq!(OpCode::Ping.as_u8(), 9);
    assert_eq!(OpCode::Pong.as_u8(), 10);
    assert!(OpCode::Close.is_close());
    assert!(!OpCode::Text.is_close());
    assert!(OpCode::Text.is_data());
    assert!(OpCode::Continue.is_data());
    assert!(!OpCode::Ping.is_data());
}

#[test]
fn parse_opcode_maps_nibbles() {
    assert_eq!(parse_opcode(0x81), Ok(OpCode::Text));
    assert_eq!(parse_opcode(0x02), Ok(OpCode::Binary));
    assert_eq!(parse_opcode(0x88), Ok(OpCode::Close));
    assert_eq!(parse_opcode(0x03), Ok(OpCode::ReservedNonControl));
    assert_eq!(parse_opcode(0x0b), Ok(OpCode::ReservedControl));
}

#[test]
fn bit_get_set() {
    let mut buf: Vec<u8> = vec![0x00, 0x00];
    set_bit(&mut buf, 0, 0, true);
    assert_eq!(buf[0], 0x80);
    assert!(get_bit(&buf, 0, 0));
    set_bit(&mut buf, 0, 3, true);
    assert_eq!(buf[0], 0x90);
    set_bit(&mut buf, 0, 0, false);
    assert_eq!(buf[0], 0x10);
    assert!(!get_bit(&buf, 0, 0));
    assert!(get_bit(&buf, 0, 3));
}

#[test]
fn masking_is_involutive() {
    let key = [0x37, 0xfa, 0x21, 0x3d];
    let plain: Vec<u8> = b"Hello".to_vec();
    let mut buf = plain.clone();
    apply_mask(&mut buf, key);
    // the RFC 6455 sample: "Hello" masked with 37 fa 21 3d
    assert_eq!(buf, vec![0x7f, 0x9f, 0x4d, 0x51, 0x58]);
    apply_mask_fast32(&mut buf, key);
    assert_eq!(buf, plain);
}

#[test]
fn header_small_payload() {
    let h = Header::new(true, false, false, false, None, OpCode::Text, 5);
    assert_eq!(h.0, vec![0x81, 0x05]);
    assert!(h.fin());
    assert!(!h.rsv1());
    assert!(!h.masked());
    assert_eq!(h.opcode(), OpCode::Text);
    assert_eq!(h.payload_len(), 5);
    assert_eq!(h.payload_idx(), (2, 7));
}

#[test]
fn header_extended_16bit_payload() {
    let h = Header::new(true, false, false, false, None, OpCode::Binary, 256);
    assert_eq!(h.0, vec![0x82, 126, 0x01, 0x00]);
    assert_eq!(h.payload_len(), 256);
}

#[test]
fn header_extended_64bit_payload() {
    let h = Header::new(true, false, false, false, None, OpCode::Binary, 65536);
    assert_eq!(h.0, vec![0x82, 127, 0, 0, 0, 0, 0, 1, 0, 0]);
    assert_eq!(h.payload_len(), 65536);
}

#[test]
fn header_mask_key_kept_by_set_payload_len() {
    let key = [1, 2, 3, 4];
    let mut h = Header::new(true, false, false, false, Some(key), OpCode::Text, 5);
    assert_eq!(h.masking_key(), Some(key));
    h.set_payload_len(300);
    assert_eq!(h.masking_key(), Some(key));
    assert_eq!(h.payload_len(), 300);
    assert_eq!(h.opcode(), OpCode::Text);
    assert!(h.fin());
}

#[test]
fn header_setters() {
    let mut h = Header::new(true, false, false, false, None, OpCode::Text, 0);
    h.set_fin(false);
    assert!(!h.fin());
    h.set_rsv1(true);
    assert!(h.rsv1());
    h.set_rsv2(true);
    assert!(h.rsv2());
    h.set_rsv3(true);
    assert!(h.rsv3());
    h.set_opcode(OpCode::Ping);
    assert_eq!(h.opcode(), OpCode::Ping);
    assert!(h.rsv1() && h.rsv2() && h.rsv3() && !h.fin());
}

#[test]
fn owned_frame_masking_cycle() {
    let mut f = OwnedFrame::text_frame(Some([9, 8, 7, 6]), "payload");
    assert!(f.header().masked());
    assert_ne!(f.payload().as_slice(), b"payload");
    let key = f.unmask();
    assert_eq!(key, Some([9, 8, 7, 6]));
    assert_eq!(f.payload().as_slice(), b"payload");
    f.mask([1, 1, 1, 1]);
    assert!(f.header().masked());
    let (h, p) = f.parts();
    assert!(!h.masked());
    assert_eq!(p.as_slice(), b"payload");
}

#[test]
fn owned_frame_extend() {
    let mut f = OwnedFrame::binary_frame(Some([5, 6, 7, 8]), b"abc");
    f.extend_from_slice(b"def");
    assert_eq!(f.header().payload_len(), 6);
    assert_eq!(f.header().masking_key(), Some([5, 6, 7, 8]));
    let (_, p) = f.parts();
    assert_eq!(p.as_slice(), b"abcdef");
}

#[test]
fn close_frame_layout() {
    let f = OwnedFrame::close_frame(None, Some(1000u16), b"bye");
    assert_eq!(f.header().opcode(), OpCode::Close);
    assert_eq!(f.payload().as_slice(), &[0x03, 0xe8, b'b', b'y', b'e']);
}
