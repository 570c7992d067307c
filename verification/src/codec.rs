//! The frame codec: an incremental decoder from a growing byte buffer to
//! validated frames, the fragmentation state machine, and the encoder.
use vstd::prelude::*;

use crate::errors::{ConnectionState, ProtocolError, WsError};
use crate::frame::{
    bit_of, ext_len_of, fin_of, get_bit, header_len_of, key_of, len7_of, masked_bytes, masked_of,
    opcode_of, opcode_of_nibble, parse_opcode, payload_len_of, plain_payload, rsv1_of, rsv2_of,
    rsv3_of, wf_header, Header, OpCode, OwnedFrame,
};

verus! {

use vstd::utf8::{
    valid_utf8, valid_first_scalar, valid_leading_and_continuation_bytes_first_codepoint,
    decode_first_codepoint, length_of_first_scalar, pop_first_scalar,
};

/// How text payloads are checked.
#[derive(Debug, Clone, Copy, PartialEq, Eq, Structural)]
pub enum ValidateUtf8Policy {
    /// deliver text payloads unchecked
    Off,
    /// check, tolerating replacement on delivery
    Fast,
    /// check and reject invalid text
    Strict,
}

impl ValidateUtf8Policy {
    /// Whether this policy checks text payloads at all.
    pub open spec fn spec_is_on(self) -> bool {
        !(self is Off)
    }

    /// Whether this policy checks text payloads at all.
    pub fn is_on(&self) -> (r: bool)
        ensures
            r == self.spec_is_on(),
    {
        !matches!(self, ValidateUtf8Policy::Off)
    }
}

/// Options recognised by the frame layer.
#[derive(Debug, Clone, Copy)]
pub struct FrameConfig {
    /// mask outbound frames (clients must, servers must not)
    pub mask_send_frame: bool,
    /// reject frames with a reserved bit set (turned off when an extension
    /// assigns one a meaning)
    pub check_rsv: bool,
    /// how text payloads are checked
    pub validate_utf8: ValidateUtf8Policy,
    /// reject frames whose payload exceeds this many bytes
    pub max_payload_len: Option<usize>,
    /// split outbound messages longer than this into fragments
    pub auto_fragment_size: Option<usize>,
}

impl Default for FrameConfig {
    /// The client-side defaults: masking on, reserved bits rejected,
    /// text checked strictly, no payload bound, no automatic fragmentation.
    fn default() -> (r: Self)
        ensures
            r.mask_send_frame,
            r.check_rsv,
            r.validate_utf8 == ValidateUtf8Policy::Strict,
            r.max_payload_len is None,
            r.auto_fragment_size is None,
    {
        FrameConfig {
            mask_send_frame: true,
            check_rsv: true,
            validate_utf8: ValidateUtf8Policy::Strict,
            max_payload_len: None,
            auto_fragment_size: None,
        }
    }
}

/// Check that a byte slice is valid UTF-8, against the reference
/// definition of the encoding.
pub fn is_valid_utf8(bytes: &[u8]) -> (r: bool)
    ensures
        r == valid_utf8(bytes@),
{
    let n = bytes.len();
    let mut i: usize = 0;
    proof {
        assert(bytes@.skip(0) =~= bytes@);
    }
    while i < n
        invariant
            i <= n,
            n == bytes@.len(),
            valid_utf8(bytes@) == valid_utf8(bytes@.skip(i as int)),
        decreases n - i,
    {
        let ghost rest = bytes@.skip(i as int);
        let b0 = bytes[i];
        assert(rest[0] == bytes@[i as int]);
        let w: usize;
        if b0 < 0x80 {
            w = 1;
            proof {
                assert((b0 & 0x7f) <= 0x7f) by (bit_vector);
                assert(decode_first_codepoint(rest) == (b0 & 0x7F) as u32);
                assert(valid_first_scalar(rest));
                assert(length_of_first_scalar(rest) == 1);
            }
        } else if b0 < 0xc0 {
            proof {
                assert(!valid_leading_and_continuation_bytes_first_codepoint(rest));
                assert(!valid_utf8(bytes@));
            }
            return false;
        } else if b0 < 0xe0 {
            if n - i < 2 || !(0x80 <= bytes[i + 1] && bytes[i + 1] <= 0xbf) {
                proof {
                    assert(!valid_leading_and_continuation_bytes_first_codepoint(rest));
                    assert(!valid_utf8(bytes@));
                }
                return false;
            }
            let b1 = bytes[i + 1];
            assert(rest[1] == bytes@[i + 1]);
            let cp: u32 = (((b0 & 0x1F) as u32) << 6) | ((b1 & 0x3f) as u32);
            if cp < 0x80 {
                proof {
                    assert(decode_first_codepoint(rest) == cp);
                    assert(!valid_first_scalar(rest));
                    assert(!valid_utf8(bytes@));
                }
                return false;
            }
            w = 2;
            proof {
                assert(decode_first_codepoint(rest) == cp);
                assert(((((b0 & 0x1F) as u32) << 6) | ((b1 & 0x3f) as u32)) <= 0x7ff)
                    by (bit_vector);
                assert(valid_first_scalar(rest));
                assert(length_of_first_scalar(rest) == 2);
            }
        } else if b0 < 0xf0 {
            if n - i < 3 || !(0x80 <= bytes[i + 1] && bytes[i + 1] <= 0xbf) || !(0x80 <= bytes[i
                + 2] && bytes[i + 2] <= 0xbf) {
                proof {
                    assert(!valid_leading_and_continuation_bytes_first_codepoint(rest));
                    assert(!valid_utf8(bytes@));
                }
                return false;
            }
            let b1 = bytes[i + 1];
            let b2 = bytes[i + 2];
            assert(rest[1] == bytes@[i + 1] && rest[2] == bytes@[i + 2]);
            let cp: u32 = (((b0 & 0x0F) as u32) << 12) | (((b1 & 0x3f) as u32) << 6) | ((b2
                & 0x3f) as u32);
            if cp < 0x800 || (0xD800 <= cp && cp <= 0xDFFF) {
                proof {
                    assert(decode_first_codepoint(rest) == cp);
                    assert(!valid_first_scalar(rest));
                    assert(!valid_utf8(bytes@));
                }
                return false;
            }
            w = 3;
            proof {
                assert(decode_first_codepoint(rest) == cp);
                assert(valid_first_scalar(rest));
                assert(length_of_first_scalar(rest) == 3);
            }
        } else if b0 < 0xf8 {
            if n - i < 4 || !(0x80 <= bytes[i + 1] && bytes[i + 1] <= 0xbf) || !(0x80 <= bytes[i
                + 2] && bytes[i + 2] <= 0xbf) || !(0x80 <= bytes[i + 3] && bytes[i + 3] <= 0xbf) {
                proof {
                    assert(!valid_leading_and_continuation_bytes_first_codepoint(rest));
                    assert(!valid_utf8(bytes@));
                }
                return false;
            }
            let b1 = bytes[i + 1];
            let b2 = bytes[i + 2];
            let b3 = bytes[i + 3];
            assert(rest[1] == bytes@[i + 1] && rest[2] == bytes@[i + 2] && rest[3] == bytes@[i
                + 3]);
            let cp: u32 = (((b0 & 0x07) as u32) << 18) | (((b1 & 0x3f) as u32) << 12) | (((b2
                & 0x3f) as u32) << 6) | ((b3 & 0x3f) as u32);
            if cp < 0x10000 || cp > 0x10ffff {
                proof {
                    assert(decode_first_codepoint(rest) == cp);
                    assert(!valid_first_scalar(rest));
                    assert(!valid_utf8(bytes@));
                }
                return false;
            }
            w = 4;
            proof {
                assert(decode_first_codepoint(rest) == cp);
                assert(valid_first_scalar(rest));
                assert(length_of_first_scalar(rest) == 4);
            }
        } else {
            proof {
                assert(!valid_leading_and_continuation_bytes_first_codepoint(rest));
                assert(!valid_utf8(bytes@));
            }
            return false;
        }
        proof {
            assert(pop_first_scalar(rest) =~= bytes@.skip(i + w));
            assert(valid_utf8(bytes@.skip(i as int)) == valid_utf8(bytes@.skip(i + w)));
        }
        i += w;
    }
    proof {
        assert(bytes@.skip(n as int) =~= Seq::<u8>::empty());
    }
    true
}

/// The close codes a peer may put on the wire: within [1000, 5000), not one
/// of the reserved codes 1004, 1005, 1006, and not in the reserved band
/// [1015, 2999].
pub open spec fn spec_valid_close_code(c: u16) -> bool {
    &&& 1000 <= c < 5000
    &&& !(1004 <= c <= 1006)
    &&& !(1015 <= c <= 2999)
}

/// Whether a close code is in the permitted set.
pub fn valid_close_code(c: u16) -> (r: bool)
    ensures
        r == spec_valid_close_code(c),
{
    1000 <= c && c < 5000 && !(1004 <= c && c <= 1006) && !(1015 <= c && c <= 2999)
}


/// The protocol error, if any, that the leading bytes of the buffer show,
/// together with the close code the caller should send.
pub open spec fn decode_error(buf: Seq<u8>, check_rsv: bool, max_payload: Option<usize>) -> Option<
    (u16, ProtocolError),
> {
    if buf.len() < 2 {
        None
    } else if check_rsv && (rsv1_of(buf) || rsv2_of(buf) || rsv3_of(buf)) {
        Some((1002u16, ProtocolError::InvalidLeadingBits((buf[0] >> 4) as u8)))
    } else if opcode_of(buf) is ReservedNonControl || opcode_of(buf) is ReservedControl {
        Some((1002u16, ProtocolError::InvalidOpcode(buf[0] & 0x0f)))
    } else if buf.len() < 2 + ext_len_of(buf) {
        None
    } else if len7_of(buf) == 127 && buf[2] >= 0x80 {
        Some((1002u16, ProtocolError::InvalidLeadingLen(127u8)))
    } else {
        match max_payload {
            Some(m) => if payload_len_of(buf) > m {
                Some((1009u16, ProtocolError::PayloadTooLarge(m)))
            } else {
                None
            },
            None => None,
        }
    }
}

/// Total length, header plus payload, of the frame the buffer starts with.
pub open spec fn frame_total_len(buf: Seq<u8>) -> int {
    header_len_of(buf) + payload_len_of(buf)
}

/// True when the buffer shows no error yet but does not hold a whole frame.
pub open spec fn decode_incomplete(buf: Seq<u8>, check_rsv: bool, max_payload: Option<
    usize,
>) -> bool {
    &&& decode_error(buf, check_rsv, max_payload) is None
    &&& (buf.len() < 2 || buf.len() < 2 + ext_len_of(buf) || buf.len() < frame_total_len(buf))
}

/// The two reserved-bit forms of the first byte that the decoder accepts
/// are exactly the forms with all three reserved bits clear.
proof fn lemma_leading_bits(b: u8)
    by (bit_vector)
    ensures
        ((b >> 4) == 8 || (b >> 4) == 0) <==> (!bit_of(b, 1) && !bit_of(b, 2) && !bit_of(b, 3)),
{
}

/// The state of the incremental frame decoder.
#[derive(Debug, Clone)]
pub struct FrameDecoder {
    /// the frame-layer options
    pub config: FrameConfig,
    /// whether a fragmented message is in progress
    pub fragmented: bool,
    /// whether the first fragment carried the extension bit
    pub fragmented_rsv1: bool,
    /// the payload assembled so far
    pub fragmented_data: Vec<u8>,
    /// the opcode of the fragmented message in progress
    pub fragmented_type: OpCode,
}

impl Default for FrameDecoder {
    /// A decoder in the idle state with the default options.
    fn default() -> (r: Self)
        ensures
            !r.fragmented,
            r.fragmented_data@.len() == 0,
            r.fragmented_type == OpCode::Text,
            r.config.check_rsv,
            r.config.validate_utf8 == ValidateUtf8Policy::Strict,
            r.config.max_payload_len is None,
    {
        FrameDecoder {
            config: FrameConfig::default(),
            fragmented: false,
            fragmented_rsv1: false,
            fragmented_data: Vec::new(),
            fragmented_type: OpCode::Text,
        }
    }
}

impl FrameDecoder {
    /// Pull one raw frame off the front of the buffer. Returns `None`,
    /// consuming nothing, while the buffer does not yet hold a whole frame;
    /// returns the frame, consuming exactly its bytes, once it does; fails,
    /// consuming nothing, on a violation visible in the leading bytes.
    pub fn decode_single(&self, src: &mut Vec<u8>) -> (r: Result<Option<OwnedFrame>, WsError>)
        ensures
            match r {
                Ok(opt) => match opt {
                    None => decode_incomplete(
                        old(src)@,
                        self.config.check_rsv,
                        self.config.max_payload_len,
                    ) && final(src)@ == old(src)@,
                    Some(f) => {
                        &&& decode_error(
                            old(src)@,
                            self.config.check_rsv,
                            self.config.max_payload_len,
                        ) is None
                        &&& !decode_incomplete(
                            old(src)@,
                            self.config.check_rsv,
                            self.config.max_payload_len,
                        )
                        &&& f.wf()
                        &&& !(opcode_of(f.header.0@) is ReservedNonControl)
                        &&& !(opcode_of(f.header.0@) is ReservedControl)
                        &&& old(src)@.len() >= frame_total_len(old(src)@)
                        &&& f.header.0@ == old(src)@.subrange(0, header_len_of(old(src)@))
                        &&& f.payload@ == old(src)@.subrange(
                            header_len_of(old(src)@),
                            frame_total_len(old(src)@),
                        )
                        &&& final(src)@ == old(src)@.skip(frame_total_len(old(src)@))
                    },
                },
                Err(e) => {
                    &&& final(src)@ == old(src)@
                    &&& decode_error(
                        old(src)@,
                        self.config.check_rsv,
                        self.config.max_payload_len,
                    ) matches Some(ce) && e matches WsError::ProtocolError { close_code, error }
                        && close_code == ce.0 && error == ce.1
                },
            },
    {
        if src.len() < 2 {
            return Ok(None);
        }
        let b0 = src[0];
        proof {
            lemma_leading_bits(b0);
        }
        if self.config.check_rsv {
            let lb = b0 >> 4;
            if !(lb == 8 || lb == 0) {
                return Err(
                    WsError::ProtocolError {
                        close_code: 1002,
                        error: ProtocolError::InvalidLeadingBits(lb),
                    },
                );
            }
        }
        let op = parse_opcode_total(b0);
        if matches!(op, OpCode::ReservedNonControl | OpCode::ReservedControl) {
            return Err(
                WsError::ProtocolError {
                    close_code: 1002,
                    error: ProtocolError::InvalidOpcode(b0 & 0x0f),
                },
            );
        }
        let len7 = src[1] & 0x7f;
        proof {
            crate::frame::lemma_len7_bound(src@[1]);
        }
        let ext: usize = if len7 < 126 {
            0
        } else if len7 == 126 {
            2
        } else {
            8
        };
        if src.len() < 2 + ext {
            return Ok(None);
        }
        if len7 == 127 && src[2] >= 0x80 {
            return Err(
                WsError::ProtocolError {
                    close_code: 1002,
                    error: ProtocolError::InvalidLeadingLen(127),
                },
            );
        }
        let plen: u64 = if len7 < 126 {
            len7 as u64
        } else if len7 == 126 {
            let r: u64 = (src[2] as u64) * 0x100 + (src[3] as u64);
            assert(r as int == crate::frame::be16v(src@.subrange(2, 4)));
            r
        } else {
            let mut acc: u64 = src[2] as u64;
            acc = acc * 0x100 + (src[3] as u64);
            acc = acc * 0x100 + (src[4] as u64);
            acc = acc * 0x100 + (src[5] as u64);
            acc = acc * 0x100 + (src[6] as u64);
            acc = acc * 0x100 + (src[7] as u64);
            acc = acc * 0x100 + (src[8] as u64);
            acc = acc * 0x100 + (src[9] as u64);
            assert(acc as int == crate::frame::be64v(src@.subrange(2, 10)));
            acc
        };
        assert(plen as int == payload_len_of(src@));
        if let Some(m) = self.config.max_payload_len {
            if plen > m as u64 {
                return Err(
                    WsError::ProtocolError {
                        close_code: 1009,
                        error: ProtocolError::PayloadTooLarge(m),
                    },
                );
            }
        }
        let masked = get_bit(src.as_slice(), 1, 0);
        let hlen: usize = 2 + ext + if masked {
            4
        } else {
            0
        };
        assert(hlen as int == header_len_of(src@));
        if (src.len() as u64) < (hlen as u64) + plen {
            return Ok(None);
        }
        let total: usize = hlen + (plen as usize);
        let header_vec = vstd::slice::slice_to_vec(
            vstd::slice::slice_subrange(src.as_slice(), 0, hlen),
        );
        let payload_vec = vstd::slice::slice_to_vec(
            vstd::slice::slice_subrange(src.as_slice(), hlen, total),
        );
        proof {
            let h = src@.subrange(0, hlen as int);
            assert(h[0] == src@[0] && h[1] == src@[1]);
            assert(len7_of(h) == len7_of(src@));
            assert(masked_of(h) == masked_of(src@));
            if len7_of(src@) == 126 {
                assert(h.subrange(2, 4) =~= src@.subrange(2, 4));
            } else if len7_of(src@) > 126 {
                assert(h.subrange(2, 10) =~= src@.subrange(2, 10));
            }
            assert(wf_header(h));
        }
        let tail = src.split_off(total);
        *src = tail;
        let frame = OwnedFrame::with_raw(Header(header_vec), payload_vec);
        proof {
            assert(src@ =~= old(src)@.skip(frame_total_len(old(src)@)));
        }
        Ok(Some(frame))
    }
}

/// Read the opcode nibble of a first header byte; total form of
/// [`parse_opcode`].
pub fn parse_opcode_total(val: u8) -> (r: OpCode)
    ensures
        r == opcode_of_nibble(val & 0x0f),
{
    match parse_opcode(val) {
        Ok(op) => op,
        Err(_) => {
            proof {
                assert(false);
            }
            OpCode::Continue
        },
    }
}


/// What one step of the receive-side state machine does: how the decoder
/// state after the call and the result relate to the state before it, the
/// buffer before and after, and the options in force. `pre`/`post` are the
/// decoder before and after; `b0`/`b1` the buffer before and after.
pub open spec fn decode_post(
    pre: FrameDecoder,
    post: FrameDecoder,
    b0: Seq<u8>,
    b1: Seq<u8>,
    r: Result<Option<OwnedFrame>, WsError>,
) -> bool {
    let check_rsv = pre.config.check_rsv;
    let maxp = pre.config.max_payload_len;
    let v = pre.config.validate_utf8.spec_is_on();
    if decode_incomplete(b0, check_rsv, maxp) {
        r == Ok::<Option<OwnedFrame>, WsError>(None) && post == pre && b1 == b0
    } else if decode_error(b0, check_rsv, maxp) is Some {
        let ce = decode_error(b0, check_rsv, maxp)->Some_0;
        &&& r matches Err(WsError::ProtocolError { close_code, error }) && close_code == ce.0
            && error == ce.1
        &&& post == pre
        &&& b1 == b0
    } else {
        let h = b0.subrange(0, header_len_of(b0));
        let p = b0.subrange(header_len_of(b0), frame_total_len(b0));
        let plain = plain_payload(h, p);
        let op = opcode_of(h);
        let fin = fin_of(h);
        &&& b1 == b0.skip(frame_total_len(b0))
        &&& post.config == pre.config
        &&& if op is Continue {
            if !pre.fragmented {
                r matches Err(WsError::ProtocolError { close_code: 1002, error })
                    && error == ProtocolError::MissInitialFragmentedFrame && post == pre
            } else {
                let full = pre.fragmented_data@ + plain;
                &&& post.fragmented_type == pre.fragmented_type
                &&& post.fragmented_rsv1 == pre.fragmented_rsv1
                &&& if !fin {
                    &&& r == Ok::<Option<OwnedFrame>, WsError>(None)
                    &&& post.fragmented
                    &&& post.fragmented_data@ == full
                } else if pre.fragmented_type is Text && v && !valid_utf8(full) {
                    r matches Err(WsError::ProtocolError { close_code: 1007, error })
                        && error == ProtocolError::InvalidUtf8
                } else {
                    &&& r matches Ok(Some(g)) && g.wf() && !masked_of(g.header.0@) && fin_of(
                        g.header.0@,
                    ) && opcode_of(g.header.0@) == pre.fragmented_type && rsv1_of(g.header.0@)
                        == pre.fragmented_rsv1 && g.payload@ == full
                    &&& !post.fragmented
                    &&& post.fragmented_data@.len() == 0
                }
            }
        } else if op is Text || op is Binary {
            if pre.fragmented {
                r matches Err(WsError::ProtocolError { close_code: 1002, error })
                    && error == ProtocolError::NotContinueFrameAfterFragmented && post == pre
            } else if !fin {
                &&& r == Ok::<Option<OwnedFrame>, WsError>(None)
                &&& post.fragmented
                &&& post.fragmented_type == op
                &&& post.fragmented_rsv1 == rsv1_of(h)
                &&& post.fragmented_data@ == plain
            } else if op is Text && v && !valid_utf8(plain) {
                r matches Err(WsError::ProtocolError { close_code: 1007, error })
                    && error == ProtocolError::InvalidUtf8 && post == pre
            } else {
                &&& r matches Ok(Some(g)) && g.wf() && !masked_of(g.header.0@) && fin_of(
                    g.header.0@,
                ) && opcode_of(g.header.0@) == op && rsv1_of(g.header.0@) == rsv1_of(h)
                    && g.payload@ == plain
                &&& post == pre
            }
        } else {
            // a control frame: close, ping or pong
            if !fin {
                r matches Err(WsError::ProtocolError { close_code: 1002, error })
                    && error == ProtocolError::FragmentedControlFrame && post == pre
            } else if plain.len() > 125 {
                r matches Err(WsError::ProtocolError { close_code: 1002, error })
                    && error == ProtocolError::ControlFrameTooBig(plain.len() as usize) && post
                    == pre
            } else if op is Close && plain.len() == 1 {
                r matches Err(WsError::ProtocolError { close_code: 1002, error })
                    && error == ProtocolError::InvalidCloseFramePayload && post == pre
            } else if op is Close && plain.len() >= 2 && !spec_valid_close_code(
                crate::frame::be16v(plain.subrange(0, 2)) as u16,
            ) {
                r matches Err(WsError::ProtocolError { close_code: 1002, error })
                    && error == ProtocolError::InvalidCloseCode(
                    crate::frame::be16v(plain.subrange(0, 2)) as u16,
                ) && post == pre
            } else if op is Close && plain.len() >= 2 && !valid_utf8(
                plain.skip(2),
            ) {
                r matches Err(WsError::ProtocolError { close_code: 1007, error })
                    && error == ProtocolError::InvalidUtf8 && post == pre
            } else {
                &&& r matches Ok(Some(g)) && g.wf() && !masked_of(g.header.0@) && fin_of(
                    g.header.0@,
                ) && opcode_of(g.header.0@) == op && rsv1_of(g.header.0@) == rsv1_of(h)
                    && g.payload@ == plain
                &&& post == pre
            }
        }
    }
}

impl FrameDecoder {
    /// Run one step of the receive-side machine: pull a frame off the
    /// buffer, enforce the fragmentation and control-frame rules, validate
    /// text and close frames, and either buffer a fragment or emit a
    /// message-bearing frame (always unmasked). The exact behaviour is
    /// [`decode_post`].
    pub fn decode(&mut self, src: &mut Vec<u8>) -> (r: Result<Option<OwnedFrame>, WsError>)
        ensures
            decode_post(*old(self), *final(self), old(src)@, final(src)@, r),
    {
        let step = self.decode_single(src);
        let frame = match step {
            Ok(Some(f)) => f,
            Ok(None) => {
                return Ok(None);
            },
            Err(e) => {
                return Err(e);
            },
        };
        let ghost b0 = old(src)@;
        let ghost h = b0.subrange(0, header_len_of(b0));
        let ghost p = b0.subrange(header_len_of(b0), frame_total_len(b0));
        let mut g = frame;
        g.unmask();
        assert(g.payload@ == plain_payload(h, p));
        let opcode = g.header.opcode();
        let fin = g.header.fin();
        let v = self.config.validate_utf8.is_on();
        match opcode {
            OpCode::Continue => {
                if !self.fragmented {
                    return Err(
                        WsError::ProtocolError {
                            close_code: 1002,
                            error: ProtocolError::MissInitialFragmentedFrame,
                        },
                    );
                }
                self.fragmented_data.extend_from_slice(g.payload.as_slice());
                assert(self.fragmented_data@ =~= old(self).fragmented_data@ + plain_payload(h, p));
                if fin {
                    let is_text = matches!(self.fragmented_type, OpCode::Text);
                    if is_text && v && !is_valid_utf8(self.fragmented_data.as_slice()) {
                        return Err(
                            WsError::ProtocolError {
                                close_code: 1007,
                                error: ProtocolError::InvalidUtf8,
                            },
                        );
                    }
                    let mut full: Vec<u8> = Vec::new();
                    core::mem::swap(&mut full, &mut self.fragmented_data);
                    let mut emitted = OwnedFrame::new(self.fragmented_type, None, full.as_slice());
                    if self.fragmented_rsv1 {
                        emitted.header_mut().set_rsv1(true);
                    }
                    self.fragmented = false;
                    Ok(Some(emitted))
                } else {
                    Ok(None)
                }
            },
            OpCode::Text | OpCode::Binary => {
                if self.fragmented {
                    return Err(
                        WsError::ProtocolError {
                            close_code: 1002,
                            error: ProtocolError::NotContinueFrameAfterFragmented,
                        },
                    );
                }
                if !fin {
                    self.fragmented = true;
                    self.fragmented_type = opcode;
                    self.fragmented_rsv1 = g.header.rsv1();
                    self.fragmented_data = g.payload;
                    Ok(None)
                } else {
                    let is_text = matches!(opcode, OpCode::Text);
                    if is_text && v && !is_valid_utf8(g.payload.as_slice()) {
                        return Err(
                            WsError::ProtocolError {
                                close_code: 1007,
                                error: ProtocolError::InvalidUtf8,
                            },
                        );
                    }
                    Ok(Some(g))
                }
            },
            OpCode::Close | OpCode::Ping | OpCode::Pong => {
                if !fin {
                    return Err(
                        WsError::ProtocolError {
                            close_code: 1002,
                            error: ProtocolError::FragmentedControlFrame,
                        },
                    );
                }
                if g.payload.len() > 125 {
                    return Err(
                        WsError::ProtocolError {
                            close_code: 1002,
                            error: ProtocolError::ControlFrameTooBig(g.payload.len()),
                        },
                    );
                }
                if matches!(opcode, OpCode::Close) && g.payload.len() >= 1 {
                    if g.payload.len() == 1 {
                        return Err(
                            WsError::ProtocolError {
                                close_code: 1002,
                                error: ProtocolError::InvalidCloseFramePayload,
                            },
                        );
                    }
                    let code: u16 = (g.payload[0] as u16) * 0x100 + (g.payload[1] as u16);
                    assert(code as int == crate::frame::be16v(g.payload@.subrange(0, 2)));
                    if !valid_close_code(code) {
                        return Err(
                            WsError::ProtocolError {
                                close_code: 1002,
                                error: ProtocolError::InvalidCloseCode(code),
                            },
                        );
                    }
                    let reason = vstd::slice::slice_subrange(
                        g.payload.as_slice(),
                        2,
                        g.payload.len(),
                    );
                    assert(reason@ == g.payload@.skip(2));
                    if !is_valid_utf8(reason) {
                        return Err(
                            WsError::ProtocolError {
                                close_code: 1007,
                                error: ProtocolError::InvalidUtf8,
                            },
                        );
                    }
                }
                Ok(Some(g))
            },
            OpCode::ReservedNonControl | OpCode::ReservedControl => {
                proof {
                    assert(false);
                }
                Ok(None)
            },
        }
    }
}


/// An in-memory byte-stream endpoint: the bytes the transport has delivered
/// and the bytes waiting to be handed to the transport. The surrounding
/// program moves bytes between this and its socket; the codec never does io.
#[derive(Debug, Clone)]
pub struct BufferStream {
    /// bytes received from the transport, not yet decoded
    pub input: Vec<u8>,
    /// bytes encoded, not yet written to the transport
    pub output: Vec<u8>,
}

impl BufferStream {
    /// An empty stream endpoint.
    pub fn new() -> (r: Self)
        ensures
            r.input@.len() == 0,
            r.output@.len() == 0,
    {
        BufferStream { input: Vec::new(), output: Vec::new() }
    }

    /// Hand bytes read from the transport to the codec.
    pub fn feed(&mut self, bytes: &[u8])
        ensures
            final(self).input@ == old(self).input@ + bytes@,
            final(self).output@ == old(self).output@,
    {
        self.input.extend_from_slice(bytes);
        assert(self.input@ =~= old(self).input@ + bytes@);
    }

    /// Take the bytes waiting to be written to the transport.
    pub fn take_output(&mut self) -> (r: Vec<u8>)
        ensures
            r@ == old(self).output@,
            final(self).output@.len() == 0,
            final(self).input@ == old(self).input@,
    {
        let mut out: Vec<u8> = Vec::new();
        core::mem::swap(&mut out, &mut self.output);
        out
    }
}

/// Split something into an independent read part and write part.
pub trait Split {
    /// the read half
    type R;

    /// the write half
    type W;

    /// Consume the whole and return the two halves.
    fn split(self) -> (Self::R, Self::W);
}

/// The frame-layer codec over an in-memory stream endpoint: decodes
/// delivered bytes into frames and encodes outbound frames, tracking the
/// connection lifecycle.
#[derive(Debug, Clone)]
pub struct FrameCodec {
    /// the in-memory transport endpoint
    pub stream: BufferStream,
    /// the serialiser and its options
    pub encoder: FrameEncoder,
    /// the incremental decoder and its options
    pub decoder: FrameDecoder,
    /// where in its lifecycle the connection stands
    pub state: ConnectionState,
}

impl FrameCodec {
    /// A codec in the running state with the default (client) options.
    pub fn new(stream: BufferStream) -> (r: Self)
        ensures
            r.stream == stream,
            r.state is Running,
            !r.decoder.fragmented,
            r.decoder.config.check_rsv,
            r.encoder.config.mask_send_frame,
    {
        FrameCodec {
            stream,
            encoder: FrameEncoder::default(),
            decoder: FrameDecoder::default(),
            state: ConnectionState::Running,
        }
    }

    /// A codec in the running state with the given options.
    pub fn new_with(stream: BufferStream, config: FrameConfig) -> (r: Self)
        ensures
            r.stream == stream,
            r.state is Running,
            !r.decoder.fragmented,
            r.decoder.fragmented_data@.len() == 0,
            r.decoder.config == config,
            r.encoder.config == config,
    {
        FrameCodec {
            stream,
            encoder: FrameEncoder { config },
            decoder: FrameDecoder {
                config,
                fragmented: false,
                fragmented_rsv1: false,
                fragmented_data: Vec::new(),
                fragmented_type: OpCode::Text,
            },
            state: ConnectionState::Running,
        }
    }

    /// The in-memory stream endpoint, for feeding received bytes and
    /// draining bytes to write.
    pub fn stream_mut(&mut self) -> (r: &mut BufferStream)
        ensures
            *r == old(self).stream,
            final(self).stream == *final(r),
            final(self).encoder == old(self).encoder,
            final(self).decoder == old(self).decoder,
            final(self).state == old(self).state,
    {
        &mut self.stream
    }

    /// Decode the next message-bearing frame out of the delivered bytes,
    /// stepping the receive-side machine ([`decode_post`]). Receiving is
    /// allowed while running or closing; a received close frame ends the
    /// receive side.
    pub fn receive(&mut self) -> (r: Result<Option<OwnedFrame>, WsError>)
        ensures
            !(old(self).state is Running || old(self).state is Closing) ==> (r matches Err(
                WsError::InvalidConnState(st),
            ) && st == old(self).state && *final(self) == *old(self)),
            (old(self).state is Running || old(self).state is Closing) ==> {
                &&& decode_post(
                    old(self).decoder,
                    final(self).decoder,
                    old(self).stream.input@,
                    final(self).stream.input@,
                    r,
                )
                &&& final(self).stream.output == old(self).stream.output
                &&& final(self).encoder == old(self).encoder
                &&& if r matches Ok(Some(g)) && opcode_of(g.header.0@) is Close {
                    final(self).state is Closed
                } else {
                    final(self).state == old(self).state
                }
            },
    {
        match self.state {
            ConnectionState::Running | ConnectionState::Closing => {},
            _ => {
                return Err(WsError::InvalidConnState(self.state));
            },
        }
        let r = self.decoder.decode(&mut self.stream.input);
        if let Ok(Some(g)) = &r {
            if g.header.opcode().is_close() {
                self.state = ConnectionState::Closed;
            }
        }
        r
    }

    /// Serialise one frame as it stands and queue its bytes for the
    /// transport. Sending is allowed only while running; sending a close
    /// frame moves the connection to closing.
    pub fn send_owned_frame(&mut self, frame: OwnedFrame) -> (r: Result<(), WsError>)
        requires
            frame.header.0@.len() >= 2,
        ensures
            !(old(self).state is Running) ==> (r matches Err(WsError::InvalidConnState(st)) && st
                == old(self).state && *final(self) == *old(self)),
            old(self).state is Running ==> {
                &&& r is Ok
                &&& final(self).stream.output@ == old(self).stream.output@ + frame.header.0@
                    + frame.payload@
                &&& final(self).stream.input == old(self).stream.input
                &&& final(self).decoder == old(self).decoder
                &&& final(self).encoder == old(self).encoder
                &&& final(self).state == if opcode_of(frame.header.0@) is Close {
                    ConnectionState::Closing
                } else {
                    old(self).state
                }
            },
    {
        if !matches!(self.state, ConnectionState::Running) {
            return Err(WsError::InvalidConnState(self.state));
        }
        if frame.header.opcode().is_close() {
            self.state = ConnectionState::Closing;
        }
        self.encoder.encode(&frame, &mut self.stream.output);
        Ok(())
    }

    /// Frame and queue one outbound data message, fragmenting and masking
    /// as the options demand; returns how many bytes were queued.
    pub fn send(&mut self, code: OpCode, payload: &[u8]) -> (r: Result<usize, WsError>)
        requires
            code is Text || code is Binary,
        ensures
            !(old(self).state is Running) ==> (r matches Err(WsError::InvalidConnState(st)) && st
                == old(self).state && *final(self) == *old(self)),
            old(self).state is Running ==> {
                &&& r is Ok
                &&& exists|fs: Seq<OwnedFrame>|
                    {
                        &&& #[trigger] fragments_post(
                            fs,
                            old(self).encoder.config.mask_send_frame,
                            code,
                            payload@,
                        )
                        &&& final(self).stream.output@ == old(self).stream.output@ + wire_of(fs)
                        &&& (old(self).encoder.config.auto_fragment_size matches Some(sz) && sz
                            > 0) ==> fragment_sizes_exact(
                            fs,
                            old(self).encoder.config.auto_fragment_size->Some_0 as int,
                            payload@,
                        )
                    }
                &&& final(self).stream.input == old(self).stream.input
                &&& final(self).decoder == old(self).decoder
                &&& final(self).encoder == old(self).encoder
                &&& final(self).state == old(self).state
            },
            r matches Ok(n) ==> n == final(self).stream.output@.len(),
    {
        if !matches!(self.state, ConnectionState::Running) {
            return Err(WsError::InvalidConnState(self.state));
        }
        let frames = self.encoder.make_frames(code, payload);
        let ghost fs = frames@;
        let ghost out0 = self.stream.output@;
        let n = frames.len();
        let mut i: usize = 0;
        let mut written: usize = 0;
        while i < n
            invariant
                i <= n,
                n == fs.len(),
                frames@ == fs,
                self.stream.output@ == out0 + wire_of(fs.subrange(0, i as int)),
                self.stream.input == old(self).stream.input,
                self.decoder == old(self).decoder,
                self.encoder == old(self).encoder,
                self.state == old(self).state,
                self.state is Running,
            decreases n - i,
        {
            let f = &frames[i];
            self.encoder.encode(f, &mut self.stream.output);
            proof {
                let pre = fs.subrange(0, i as int);
                let post = fs.subrange(0, i + 1);
                assert(post.drop_last() =~= pre);
                assert(post.last() == fs[i as int]);
            }
            i += 1;
        }
        proof {
            assert(fs.subrange(0, n as int) =~= fs);
            assert(fragments_post(
                fs,
                old(self).encoder.config.mask_send_frame,
                code,
                payload@,
            ));
        }
        Ok(self.stream.output.len())
    }
}

/// The receiving half of a split codec: the decoder state, its options and
/// the delivered bytes.
#[derive(Debug, Clone)]
pub struct FrameReadHalf {
    /// bytes received from the transport, not yet decoded
    pub input: Vec<u8>,
    /// the incremental decoder and its options
    pub decoder: FrameDecoder,
    /// where in its lifecycle the connection stands
    pub state: ConnectionState,
}

impl FrameReadHalf {
    /// Hand bytes read from the transport to this half.
    pub fn feed(&mut self, bytes: &[u8])
        ensures
            final(self).input@ == old(self).input@ + bytes@,
            final(self).decoder == old(self).decoder,
            final(self).state == old(self).state,
    {
        self.input.extend_from_slice(bytes);
        assert(self.input@ =~= old(self).input@ + bytes@);
    }

    /// Decode the next message-bearing frame, as [`FrameCodec::receive`] does.
    pub fn receive(&mut self) -> (r: Result<Option<OwnedFrame>, WsError>)
        ensures
            !(old(self).state is Running || old(self).state is Closing) ==> (r matches Err(
                WsError::InvalidConnState(st),
            ) && st == old(self).state && *final(self) == *old(self)),
            (old(self).state is Running || old(self).state is Closing) ==> {
                &&& decode_post(
                    old(self).decoder,
                    final(self).decoder,
                    old(self).input@,
                    final(self).input@,
                    r,
                )
                &&& if r matches Ok(Some(g)) && opcode_of(g.header.0@) is Close {
                    final(self).state is Closed
                } else {
                    final(self).state == old(self).state
                }
            },
    {
        match self.state {
            ConnectionState::Running | ConnectionState::Closing => {},
            _ => {
                return Err(WsError::InvalidConnState(self.state));
            },
        }
        let r = self.decoder.decode(&mut self.input);
        if let Ok(Some(g)) = &r {
            if g.header.opcode().is_close() {
                self.state = ConnectionState::Closed;
            }
        }
        r
    }
}

/// The sending half of a split codec: the encoder, its options and the
/// bytes waiting for the transport.
#[derive(Debug, Clone)]
pub struct FrameWriteHalf {
    /// bytes encoded, not yet written to the transport
    pub output: Vec<u8>,
    /// the serialiser and its options
    pub encoder: FrameEncoder,
    /// where in its lifecycle the connection stands
    pub state: ConnectionState,
}

impl FrameWriteHalf {
    /// Serialise one frame as it stands, as [`FrameCodec::send_owned_frame`]
    /// does.
    pub fn send_owned_frame(&mut self, frame: OwnedFrame) -> (r: Result<(), WsError>)
        requires
            frame.header.0@.len() >= 2,
        ensures
            !(old(self).state is Running) ==> (r matches Err(WsError::InvalidConnState(st)) && st
                == old(self).state && *final(self) == *old(self)),
            old(self).state is Running ==> {
                &&& r is Ok
                &&& final(self).output@ == old(self).output@ + frame.header.0@ + frame.payload@
                &&& final(self).encoder == old(self).encoder
                &&& final(self).state == if opcode_of(frame.header.0@) is Close {
                    ConnectionState::Closing
                } else {
                    old(self).state
                }
            },
    {
        if !matches!(self.state, ConnectionState::Running) {
            return Err(WsError::InvalidConnState(self.state));
        }
        if frame.header.opcode().is_close() {
            self.state = ConnectionState::Closing;
        }
        self.encoder.encode(&frame, &mut self.output);
        Ok(())
    }

    /// Take the bytes waiting to be written to the transport.
    pub fn take_output(&mut self) -> (r: Vec<u8>)
        ensures
            r@ == old(self).output@,
            final(self).output@.len() == 0,
            final(self).encoder == old(self).encoder,
            final(self).state == old(self).state,
    {
        let mut out: Vec<u8> = Vec::new();
        core::mem::swap(&mut out, &mut self.output);
        out
    }
}

impl FrameCodec {
    /// Split the codec into its two halves: the read half takes the decoder
    /// state and the delivered bytes, the write half the encoder state and
    /// the bytes waiting for the transport; both remember the lifecycle
    /// state at the moment of the split.
    pub fn split_parts(self) -> (r: (FrameReadHalf, FrameWriteHalf))
        ensures
            r.0.input == self.stream.input,
            r.0.decoder == self.decoder,
            r.0.state == self.state,
            r.1.output == self.stream.output,
            r.1.encoder == self.encoder,
            r.1.state == self.state,
    {
        let FrameCodec { stream, encoder, decoder, state } = self;
        let BufferStream { input, output } = stream;
        (FrameReadHalf { input, decoder, state }, FrameWriteHalf { output, encoder, state })
    }
}

impl Split for FrameCodec {
    type R = FrameReadHalf;

    type W = FrameWriteHalf;

    /// Split the codec into independent read and write halves.
    fn split(self) -> (FrameReadHalf, FrameWriteHalf) {
        self.split_parts()
    }
}


/// Draws a fresh masking key.
///
/// Relies on rand::random: four bytes from the thread-local cryptographic
/// generator. Nothing is promised of their values.
#[verifier::external_body]
pub(crate) fn random_mask_key() -> [u8; 4] {
    rand::random()
}

/// The application payloads of a list of frames, concatenated in order.
pub open spec fn concat_plains(fs: Seq<OwnedFrame>) -> Seq<u8>
    decreases fs.len(),
{
    if fs.len() == 0 {
        Seq::empty()
    } else {
        concat_plains(fs.drop_last()) + fs.last().plain()
    }
}

/// The wire bytes of a list of frames: each header followed by its payload,
/// concatenated in order.
pub open spec fn wire_of(fs: Seq<OwnedFrame>) -> Seq<u8>
    decreases fs.len(),
{
    if fs.len() == 0 {
        Seq::empty()
    } else {
        wire_of(fs.drop_last()) + fs.last().header.0@ + fs.last().payload@
    }
}

/// What the frames carrying one outbound message look like: well-formed,
/// masked exactly when `mask` says so, the message opcode on the first
/// frame and continuations after it, the fin bit on the last frame only,
/// no reserved bits, and payloads that reassemble to `payload`.
pub open spec fn fragments_post(fs: Seq<OwnedFrame>, mask: bool, code: OpCode, payload: Seq<u8>) -> bool {
    &&& fs.len() >= 1
    &&& (forall|i: int| 0 <= i < fs.len() ==> (#[trigger] fs[i]).wf())
    &&& (forall|i: int| 0 <= i < fs.len() ==> masked_of((#[trigger] fs[i]).header.0@) == mask)
    &&& (forall|i: int|
        0 <= i < fs.len() ==> opcode_of((#[trigger] fs[i]).header.0@) == if i == 0 {
            code
        } else {
            OpCode::Continue
        })
    &&& (forall|i: int|
        0 <= i < fs.len() ==> fin_of((#[trigger] fs[i]).header.0@) == (i == fs.len() - 1))
    &&& (forall|i: int| 0 <= i < fs.len() ==> !rsv1_of((#[trigger] fs[i]).header.0@))
    &&& concat_plains(fs) == payload
}

/// The exact shape automatic fragmentation gives a message: one fragment
/// per begun `sz`-byte chunk (one fragment for an empty message), the
/// fragment at position `i` carrying bytes `i*sz` up to the next boundary
/// or the end.
pub open spec fn fragment_sizes_exact(fs: Seq<OwnedFrame>, sz: int, payload: Seq<u8>) -> bool {
    &&& fs.len() == if payload.len() == 0 {
        1int
    } else {
        (payload.len() + sz - 1) / sz
    }
    &&& forall|i: int|
        0 <= i < fs.len() ==> (#[trigger] fs[i]).plain() == payload.subrange(
            i * sz,
            if (i + 1) * sz <= payload.len() {
                (i + 1) * sz
            } else {
                payload.len() as int
            },
        )
}

/// The frame serialiser.
#[derive(Debug, Clone)]
pub struct FrameEncoder {
    /// the frame-layer options
    pub config: FrameConfig,
}

impl Default for FrameEncoder {
    /// An encoder with the default (client-side) options.
    fn default() -> (r: Self)
        ensures
            r.config.mask_send_frame,
            r.config.auto_fragment_size is None,
    {
        FrameEncoder { config: FrameConfig::default() }
    }
}

impl FrameEncoder {
    /// Serialise one frame: its header bytes, then its payload, appended to
    /// the destination buffer.
    pub fn encode(&self, item: &OwnedFrame, dst: &mut Vec<u8>)
        ensures
            final(dst)@ == old(dst)@ + item.header.0@ + item.payload@,
    {
        dst.extend_from_slice(item.header.0.as_slice());
        dst.extend_from_slice(item.payload.as_slice());
        assert(dst@ =~= old(dst)@ + item.header.0@ + item.payload@);
    }

    /// Build the frames for one outbound message: a single final frame, or,
    /// when the payload exceeds the configured fragment boundary, a chain of
    /// fragments. Masks each frame with a fresh random key when the options
    /// ask for masking.
    pub fn make_frames(&self, code: OpCode, payload: &[u8]) -> (r: Vec<OwnedFrame>)
        requires
            code is Text || code is Binary,
        ensures
            fragments_post(r@, self.config.mask_send_frame, code, payload@),
            (self.config.auto_fragment_size is None || self.config.auto_fragment_size == Some(
                0usize,
            )) ==> r@.len() == 1 && r@[0].plain() == payload@,
            (self.config.auto_fragment_size matches Some(sz) && sz > 0) ==> fragment_sizes_exact(
                r@,
                self.config.auto_fragment_size->Some_0 as int,
                payload@,
            ),
    {
        let mask_on = self.config.mask_send_frame;
        let mut frames: Vec<OwnedFrame> = Vec::new();
        let total = payload.len();
        let mut off: usize = 0;
        let frag: usize = match self.config.auto_fragment_size {
            Some(sz) => sz,
            None => 0,
        };
        if frag > 0 {
            while total - off > frag
                invariant
                    off <= total,
                    total == payload@.len(),
                    frag > 0,
                    off == frames@.len() * frag,
                    total > 0 ==> off < total,
                    forall|i: int|
                        0 <= i < frames@.len() ==> (#[trigger] frames@[i]).plain()
                            == payload@.subrange(i * frag, (i + 1) * frag),
                    concat_plains(frames@) == payload@.subrange(0, off as int),
                    off > 0 ==> frames@.len() >= 1,
                    off == 0 ==> frames@.len() == 0,
                    forall|i: int| 0 <= i < frames@.len() ==> (#[trigger] frames@[i]).wf(),
                    forall|i: int|
                        0 <= i < frames@.len() ==> masked_of((#[trigger] frames@[i]).header.0@)
                            == mask_on,
                    forall|i: int|
                        0 <= i < frames@.len() ==> opcode_of((#[trigger] frames@[i]).header.0@)
                            == if i == 0 {
                            code
                        } else {
                            OpCode::Continue
                        },
                    forall|i: int|
                        0 <= i < frames@.len() ==> !fin_of((#[trigger] frames@[i]).header.0@),
                    forall|i: int|
                        0 <= i < frames@.len() ==> !rsv1_of((#[trigger] frames@[i]).header.0@),
                decreases total - off,
            {
                let chunk = vstd::slice::slice_subrange(payload, off, off + frag);
                let mask = if mask_on {
                    Some(random_mask_key())
                } else {
                    None
                };
                let op = if off == 0 {
                    code
                } else {
                    OpCode::Continue
                };
                let mut f = OwnedFrame::new(op, mask, chunk);
                let ghost fs0 = frames@;
                let ghost f_before = f;
                f.header.set_fin(false);
                proof {
                    assert(f.plain() == f_before.plain());
                }
                frames.push(f);
                proof {
                    assert(frames@.drop_last() =~= fs0);
                    assert(frames@.last() == f);
                    assert(payload@.subrange(0, off as int) + payload@.subrange(
                        off as int,
                        off + frag,
                    ) =~= payload@.subrange(0, off + frag));
                    assert((fs0.len() + 1) * frag == fs0.len() * frag + frag) by (nonlinear_arith);
                    assert(frames@[fs0.len() as int] == f);
                }
                off = off + frag;
            }
        }
        let chunk = vstd::slice::slice_subrange(payload, off, total);
        let mask = if mask_on {
            Some(random_mask_key())
        } else {
            None
        };
        let op = if off == 0 {
            code
        } else {
            OpCode::Continue
        };
        let f = OwnedFrame::new(op, mask, chunk);
        let ghost fs0 = frames@;
        frames.push(f);
        proof {
            assert(frames@.drop_last() =~= fs0);
            assert(frames@.last() == f);
            assert(concat_plains(frames@) == concat_plains(fs0) + f.plain());
            if off == 0 {
                assert(fs0 =~= Seq::<OwnedFrame>::empty());
                assert(concat_plains(fs0) =~= Seq::<u8>::empty());
            }
            assert(concat_plains(fs0) =~= payload@.subrange(0, off as int));
            assert(payload@.subrange(0, off as int) + payload@.subrange(off as int, total as int)
                =~= payload@.subrange(0, total as int));
            assert(payload@.subrange(0, total as int) =~= payload@);
            assert(concat_plains(frames@) =~= payload@);
            if frag > 0 {
                let k = fs0.len();
                assert(off == k * frag);
                if total == 0 {
                    assert(k == 0 && frames@.len() == 1);
                } else {
                    assert(0 < total - off <= frag);
                    assert((total + frag - 1) / (frag as int) == k + 1) by (nonlinear_arith)
                        requires
                            frag > 0,
                            off == k * frag,
                            0 < total - off <= frag,
                    ;
                }
                assert forall|i: int| 0 <= i < frames@.len() implies (#[trigger] frames@[i]).plain()
                    == payload@.subrange(
                    i * frag,
                    if (i + 1) * frag <= payload@.len() {
                        (i + 1) * frag
                    } else {
                        payload@.len() as int
                    },
                ) by {
                    if i < k {
                        assert(frames@[i] == fs0[i]);
                        assert((i + 1) * frag <= k * frag) by (nonlinear_arith)
                            requires
                                i + 1 <= k,
                                frag > 0,
                        ;
                    } else {
                        assert(frames@[i] == f);
                        assert(i == k);
                        assert(f.plain() == payload@.subrange(off as int, total as int));
                        assert((k + 1) * frag == k * frag + frag) by (nonlinear_arith);
                        if (k + 1) * frag <= total {
                            assert(total <= off + frag);
                            assert((k + 1) * frag == total);
                            assert(payload@.subrange(k * frag, (k + 1) * frag) =~= payload@
                                .subrange(off as int, total as int));
                        }
                    }
                }
            }
        }
        frames
    }
}


/// Encoding then decoding is the identity: a buffer holding exactly the
/// wire bytes of a well-formed frame that the options accept shows no
/// error, is complete, splits back into that frame's header and payload,
/// and leaves nothing behind. Together with [`FrameDecoder::decode_single`]
/// this says the decoder undoes [`FrameEncoder::encode`].
pub proof fn lemma_encode_decode_round_trip(f: OwnedFrame, check_rsv: bool, maxp: Option<usize>)
    requires
        f.wf(),
        f.payload@.len() < 0x8000000000000000,
        check_rsv ==> !rsv1_of(f.header.0@) && !rsv2_of(f.header.0@) && !rsv3_of(f.header.0@),
        !(opcode_of(f.header.0@) is ReservedNonControl),
        !(opcode_of(f.header.0@) is ReservedControl),
        maxp matches Some(m) ==> f.payload@.len() <= m,
    ensures
        ({
            let buf = f.header.0@ + f.payload@;
            &&& decode_error(buf, check_rsv, maxp) is None
            &&& !decode_incomplete(buf, check_rsv, maxp)
            &&& header_len_of(buf) == f.header.0@.len()
            &&& frame_total_len(buf) == buf.len()
            &&& buf.subrange(0, header_len_of(buf)) == f.header.0@
            &&& buf.subrange(header_len_of(buf), frame_total_len(buf)) == f.payload@
            &&& buf.skip(frame_total_len(buf)) == Seq::<u8>::empty()
        }),
{
    let h = f.header.0@;
    let buf = h + f.payload@;
    assert(buf[0] == h[0] && buf[1] == h[1]);
    assert(len7_of(buf) == len7_of(h));
    assert(masked_of(buf) == masked_of(h));
    if len7_of(h) == 126 {
        assert(buf.subrange(2, 4) =~= h.subrange(2, 4));
    } else if len7_of(h) > 126 {
        assert(buf.subrange(2, 10) =~= h.subrange(2, 10));
    }
    assert(payload_len_of(buf) == payload_len_of(h));
    assert(header_len_of(buf) == h.len() as int);
    if len7_of(h) > 126 {
        assert(h.len() >= 10);
        assert(buf[2] == h[2]);
        let s = h.subrange(2, 10);
        assert(crate::frame::be64v(s) == payload_len_of(h));
        assert(s[0] == h[2]);
        assert(crate::frame::be64v(s) >= s[0] * 0x100000000000000) by {
            lemma_be64_first_byte_bound(s);
        }
        assert(h[2] < 0x80);
    }
    assert(buf.subrange(0, h.len() as int) =~= h);
    assert(buf.subrange(h.len() as int, buf.len() as int) =~= f.payload@);
    assert(buf.skip(buf.len() as int) =~= Seq::<u8>::empty());
}

/// Eight big-endian bytes are worth at least their first byte's weight.
proof fn lemma_be64_first_byte_bound(s: Seq<u8>)
    requires
        s.len() == 8,
    ensures
        crate::frame::be64v(s) >= s[0] * 0x100000000000000,
{
    assert(crate::frame::be64v(s) == ((((((s[0] * 0x100 + s[1]) * 0x100 + s[2]) * 0x100 + s[3])
        * 0x100 + s[4]) * 0x100 + s[5]) * 0x100 + s[6]) * 0x100 + s[7]);
}

/// Feeding the bytes piecemeal decodes the same frames as feeding them at
/// once: a buffer that already holds a whole frame (or shows an error)
/// decodes the same way after any further bytes arrive, and what follows
/// the frame is exactly the old remainder with the new bytes behind it.
pub proof fn lemma_decode_prefix_stable(
    buf: Seq<u8>,
    more: Seq<u8>,
    check_rsv: bool,
    maxp: Option<usize>,
)
    requires
        !decode_incomplete(buf, check_rsv, maxp),
    ensures
        decode_error(buf + more, check_rsv, maxp) == decode_error(buf, check_rsv, maxp),
        !decode_incomplete(buf + more, check_rsv, maxp),
        decode_error(buf, check_rsv, maxp) is None ==> {
            &&& header_len_of(buf + more) == header_len_of(buf)
            &&& frame_total_len(buf + more) == frame_total_len(buf)
            &&& (buf + more).subrange(0, header_len_of(buf)) == buf.subrange(
                0,
                header_len_of(buf),
            )
            &&& (buf + more).subrange(header_len_of(buf), frame_total_len(buf)) == buf.subrange(
                header_len_of(buf),
                frame_total_len(buf),
            )
            &&& (buf + more).skip(frame_total_len(buf)) == buf.skip(frame_total_len(buf)) + more
        },
{
    let ext = buf + more;
    assert(buf.len() >= 2);
    assert(ext[0] == buf[0] && ext[1] == buf[1]);
    assert(len7_of(ext) == len7_of(buf));
    assert(masked_of(ext) == masked_of(buf));
    if buf.len() >= 2 + ext_len_of(buf) {
        if len7_of(buf) == 126 {
            assert(ext.subrange(2, 4) =~= buf.subrange(2, 4));
        } else if len7_of(buf) > 126 {
            assert(ext.subrange(2, 10) =~= buf.subrange(2, 10));
            assert(ext[2] == buf[2]);
        }
        assert(payload_len_of(ext) == payload_len_of(buf));
    }
    if decode_error(buf, check_rsv, maxp) is None {
        assert(buf.len() >= 2 + ext_len_of(buf));
        assert(buf.len() >= frame_total_len(buf));
        assert(ext.subrange(0, header_len_of(buf)) =~= buf.subrange(0, header_len_of(buf)));
        assert(ext.subrange(header_len_of(buf), frame_total_len(buf)) =~= buf.subrange(
            header_len_of(buf),
            frame_total_len(buf),
        ));
        assert(ext.skip(frame_total_len(buf)) =~= buf.skip(frame_total_len(buf)) + more);
    }
}

/// Every frame of a masked outbound message carries the mask bit, and its
/// stored payload XORed with its own key over the 4-byte stride is the
/// plain payload again.
pub proof fn lemma_fragments_masked_xor(fs: Seq<OwnedFrame>, code: OpCode, payload: Seq<u8>)
    requires
        fragments_post(fs, true, code, payload),
    ensures
        forall|i: int|
            0 <= i < fs.len() ==> masked_of((#[trigger] fs[i]).header.0@) && masked_bytes(
                fs[i].payload@,
                key_of(fs[i].header.0@),
            ) == fs[i].plain(),
{
}

/// No frame of an unmasked outbound message carries the mask bit, and each
/// one's stored payload is already the plain payload.
pub proof fn lemma_fragments_unmasked(fs: Seq<OwnedFrame>, code: OpCode, payload: Seq<u8>)
    requires
        fragments_post(fs, false, code, payload),
    ensures
        forall|i: int|
            0 <= i < fs.len() ==> !masked_of((#[trigger] fs[i]).header.0@) && fs[i].payload@
                == fs[i].plain(),
{
}


/// A complete, final close frame with a body is accepted exactly when its
/// code is in the permitted set and its reason bytes decode as text; a bad
/// code is answered with close code 1002, a bad reason with 1007.
pub proof fn lemma_close_acceptance(
    pre: FrameDecoder,
    post: FrameDecoder,
    b0: Seq<u8>,
    b1: Seq<u8>,
    r: Result<Option<OwnedFrame>, WsError>,
)
    requires
        decode_post(pre, post, b0, b1, r),
        decode_error(b0, pre.config.check_rsv, pre.config.max_payload_len) is None,
        !decode_incomplete(b0, pre.config.check_rsv, pre.config.max_payload_len),
        opcode_of(b0.subrange(0, header_len_of(b0))) is Close,
        fin_of(b0.subrange(0, header_len_of(b0))),
        ({
            let h = b0.subrange(0, header_len_of(b0));
            let p = b0.subrange(header_len_of(b0), frame_total_len(b0));
            2 <= plain_payload(h, p).len() <= 125
        }),
    ensures
        ({
            let h = b0.subrange(0, header_len_of(b0));
            let plain = plain_payload(h, b0.subrange(header_len_of(b0), frame_total_len(b0)));
            let code = crate::frame::be16v(plain.subrange(0, 2)) as u16;
            &&& (r matches Ok(Some(g)) && g.payload@ == plain) <==> (spec_valid_close_code(code)
                && valid_utf8(plain.skip(2)))
            &&& !spec_valid_close_code(code) ==> (r matches Err(WsError::ProtocolError {
                close_code: 1002,
                error,
            }) && error == ProtocolError::InvalidCloseCode(code))
            &&& spec_valid_close_code(code) && !valid_utf8(plain.skip(2)) ==> (r matches Err(
                WsError::ProtocolError { close_code: 1007, error },
            ) && error == ProtocolError::InvalidUtf8)
        }),
{
}

/// A complete, final text frame outside any fragmented message is
/// delivered exactly when its payload is valid text (while the options ask
/// for validation); an invalid payload is answered with close code 1007.
pub proof fn lemma_text_delivery(
    pre: FrameDecoder,
    post: FrameDecoder,
    b0: Seq<u8>,
    b1: Seq<u8>,
    r: Result<Option<OwnedFrame>, WsError>,
)
    requires
        decode_post(pre, post, b0, b1, r),
        decode_error(b0, pre.config.check_rsv, pre.config.max_payload_len) is None,
        !decode_incomplete(b0, pre.config.check_rsv, pre.config.max_payload_len),
        opcode_of(b0.subrange(0, header_len_of(b0))) is Text,
        fin_of(b0.subrange(0, header_len_of(b0))),
        !pre.fragmented,
        pre.config.validate_utf8.spec_is_on(),
    ensures
        ({
            let h = b0.subrange(0, header_len_of(b0));
            let plain = plain_payload(h, b0.subrange(header_len_of(b0), frame_total_len(b0)));
            &&& (r matches Ok(Some(g)) && g.payload@ == plain) <==> valid_utf8(plain)
            &&& !valid_utf8(plain) ==> (r matches Err(WsError::ProtocolError {
                close_code: 1007,
                error,
            }) && error == ProtocolError::InvalidUtf8)
        }),
{
}

/// The final fragment of a fragmented text message yields the assembled
/// message exactly when the concatenated payload is valid text (while the
/// options ask for validation): a partial code point at a fragment
/// boundary cannot fail the message as long as the whole decodes.
pub proof fn lemma_fragmented_text_delivery(
    pre: FrameDecoder,
    post: FrameDecoder,
    b0: Seq<u8>,
    b1: Seq<u8>,
    r: Result<Option<OwnedFrame>, WsError>,
)
    requires
        decode_post(pre, post, b0, b1, r),
        decode_error(b0, pre.config.check_rsv, pre.config.max_payload_len) is None,
        !decode_incomplete(b0, pre.config.check_rsv, pre.config.max_payload_len),
        opcode_of(b0.subrange(0, header_len_of(b0))) is Continue,
        fin_of(b0.subrange(0, header_len_of(b0))),
        pre.fragmented,
        pre.fragmented_type is Text,
        pre.config.validate_utf8.spec_is_on(),
    ensures
        ({
            let h = b0.subrange(0, header_len_of(b0));
            let plain = plain_payload(h, b0.subrange(header_len_of(b0), frame_total_len(b0)));
            let full = pre.fragmented_data@ + plain;
            &&& (r matches Ok(Some(g)) && g.payload@ == full) <==> valid_utf8(full)
            &&& !valid_utf8(full) ==> (r matches Err(WsError::ProtocolError {
                close_code: 1007,
                error,
            }) && error == ProtocolError::InvalidUtf8)
        }),
{
}

} // verus!
