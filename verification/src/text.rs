//! The message-level codec for text-oriented callers: frames in, `String`
//! messages out, and the reverse.
use vstd::prelude::*;

use crate::codec::{
    decode_post, random_mask_key, BufferStream, FrameCodec, FrameConfig, Split, fragments_post,
    is_valid_utf8, wire_of,
};
use crate::errors::{ProtocolError, WsError};
use crate::frame::{be16v, fin_of, masked_of, opcode_of, OpCode, OwnedFrame};
use crate::protocol::{resp_check_ok, standard_handshake_resp_check, HandshakeRequest,
    HandshakeResponse};
use crate::Message;

verus! {

use vstd::utf8::{decode_utf8, valid_utf8, encode_utf8};
use vstd::string::StringExecFns;

/// Relies on String::from_utf8: on valid UTF-8 input it returns exactly the
/// characters the bytes encode.
#[verifier::external_body]
fn string_from_utf8(v: Vec<u8>) -> (r: String)
    requires
        valid_utf8(v@),
    ensures
        r@ == decode_utf8(v@),
{
    String::from_utf8(v).unwrap_or_default()
}

/// Relies on String::from_utf8_lossy: valid UTF-8 bytes come back exactly;
/// invalid sequences are replaced, so nothing more is assumed then.
#[verifier::external_body]
fn string_from_utf8_lossy(v: &Vec<u8>) -> (r: String)
    ensures
        valid_utf8(v@) ==> r@ == decode_utf8(v@),
{
    String::from_utf8_lossy(v.as_slice()).to_string()
}

/// How a string message relates to the frame it was read from: the opcode
/// is carried over; a close frame with a body yields its code and, when the
/// reason is sound text, the decoded reason; any other frame yields no code
/// and, when the payload is sound text, the decoded payload.
pub open spec fn string_msg_post(f: OwnedFrame, m: Message<String>) -> bool {
    &&& m.code == opcode_of(f.header.0@)
    &&& if opcode_of(f.header.0@) is Close && f.payload@.len() >= 2 {
        &&& m.close_code == Some(be16v(f.payload@.subrange(0, 2)) as u16)
        &&& (valid_utf8(f.payload@.skip(2)) ==> m.data@ == decode_utf8(f.payload@.skip(2)))
    } else {
        &&& m.close_code is None
        &&& (valid_utf8(f.payload@) ==> m.data@ == decode_utf8(f.payload@))
    }
}

/// What one receive step does: when the connection cannot receive, the
/// call fails with the lifecycle error and changes nothing; otherwise the
/// frame machine runs one step ([`decode_post`]) and its outcome is passed
/// on as is, except that a message-bearing text frame whose payload is not
/// valid UTF-8 is refused with close code 1007 while this codec validates,
/// and any other message-bearing frame becomes the message
/// [`string_msg_post`] describes.
pub open spec fn string_receive_post(
    pre: WsStringCodec,
    post: WsStringCodec,
    r: Result<Option<Message<String>>, WsError>,
) -> bool {
    let st = pre.frame_codec.state;
    &&& post.validate_utf8 == pre.validate_utf8
    &&& post.frame_codec.stream.output == pre.frame_codec.stream.output
    &&& post.frame_codec.encoder == pre.frame_codec.encoder
    &&& if !(st is Running || st is Closing) {
        &&& r matches Err(WsError::InvalidConnState(s)) && s == st
        &&& post == pre
    } else {
        exists|rr: Result<Option<OwnedFrame>, WsError>|
            {
                &&& #[trigger] decode_post(
                    pre.frame_codec.decoder,
                    post.frame_codec.decoder,
                    pre.frame_codec.stream.input@,
                    post.frame_codec.stream.input@,
                    rr,
                )
                &&& match rr {
                    Ok(None) => r == Ok::<Option<Message<String>>, WsError>(None)
                        && post.frame_codec.state == st,
                    Err(e) => r == Err::<Option<Message<String>>, WsError>(e)
                        && post.frame_codec.state == st,
                    Ok(Some(f)) => {
                        &&& post.frame_codec.state == if opcode_of(f.header.0@) is Close {
                            crate::errors::ConnectionState::Closed
                        } else {
                            st
                        }
                        &&& if pre.validate_utf8 && opcode_of(f.header.0@) is Text && !valid_utf8(
                            f.payload@,
                        ) {
                            r matches Err(WsError::ProtocolError { close_code: 1007, error })
                                && error == ProtocolError::InvalidUtf8
                        } else {
                            r matches Ok(Some(m)) && string_msg_post(f, m)
                        }
                    },
                }
            }
    }
}

/// The message-level codec over `String` payloads.
#[derive(Debug)]
pub struct WsStringCodec {
    /// the frame layer underneath
    pub frame_codec: FrameCodec,
    /// reject text messages whose payload is not valid utf-8
    pub validate_utf8: bool,
}

impl WsStringCodec {
    /// A codec with the default (client) options and no text validation of
    /// its own.
    pub fn new(stream: BufferStream) -> (r: Self)
        ensures
            r.frame_codec.stream == stream,
            r.frame_codec.state is Running,
            !r.validate_utf8,
    {
        WsStringCodec { frame_codec: FrameCodec::new(stream), validate_utf8: false }
    }

    /// A codec with the given frame options and text validation choice.
    pub fn new_with(stream: BufferStream, config: FrameConfig, validate_utf8: bool) -> (r: Self)
        ensures
            r.frame_codec.stream == stream,
            r.frame_codec.state is Running,
            r.frame_codec.encoder.config == config,
            r.frame_codec.decoder.config == config,
            r.validate_utf8 == validate_utf8,
    {
        WsStringCodec { frame_codec: FrameCodec::new_with(stream, config), validate_utf8 }
    }

    /// The in-memory stream endpoint, for feeding received bytes and
    /// draining bytes to write.
    pub fn stream_mut(&mut self) -> (r: &mut BufferStream)
        ensures
            *r == old(self).frame_codec.stream,
            final(self).frame_codec.stream == *final(r),
            final(self).frame_codec.encoder == old(self).frame_codec.encoder,
            final(self).frame_codec.decoder == old(self).frame_codec.decoder,
            final(self).frame_codec.state == old(self).frame_codec.state,
            final(self).validate_utf8 == old(self).validate_utf8,
    {
        self.frame_codec.stream_mut()
    }

    /// Build the client side once the upgrade response passed the standard
    /// check against the key this client sent.
    pub fn check_fn(key: String, resp: &HandshakeResponse, stream: BufferStream) -> (r: Result<
        Self,
        WsError,
    >)
        ensures
            r is Ok <==> resp_check_ok(encode_utf8(key@), *resp),
            r matches Ok(c) ==> {
                &&& c.frame_codec.state is Running
                &&& c.frame_codec.encoder.config.mask_send_frame
                &&& c.validate_utf8
            },
    {
        standard_handshake_resp_check(key.as_str(), resp)?;
        Ok(Self::new_with(stream, FrameConfig::default(), true))
    }

    /// Build the server side from an accepted upgrade request: frames go
    /// out unmasked.
    pub fn factory(_req: &HandshakeRequest, stream: BufferStream) -> (r: Result<Self, WsError>)
        ensures
            r is Ok,
            r matches Ok(c) ==> {
                &&& c.frame_codec.state is Running
                &&& !c.frame_codec.encoder.config.mask_send_frame
                &&& c.validate_utf8
            },
    {
        let config = FrameConfig {
            mask_send_frame: false,
            ..FrameConfig::default()
        };
        Ok(Self::new_with(stream, config, true))
    }

    /// Decode the next message: the frame machine runs one step; a close
    /// frame with a body yields its code and reason, any other frame its
    /// payload as text (checked when this codec validates). The exact
    /// behaviour is [`string_receive_post`].
    pub fn receive(&mut self) -> (r: Result<Option<Message<String>>, WsError>)
        ensures
            string_receive_post(*old(self), *final(self), r),
    {
        let frame = match self.frame_codec.receive() {
            Ok(Some(f)) => f,
            Ok(None) => {
                return Ok(None);
            },
            Err(e) => {
                return Err(e);
            },
        };
        let ghost gf = frame;
        let code = frame.header.opcode();
        let payload = frame.payload;
        let is_close = matches!(code, OpCode::Close);
        let (close_code, data_bytes): (Option<u16>, Vec<u8>) = if is_close && payload.len() >= 2 {
            let c: u16 = (payload[0] as u16) * 0x100 + (payload[1] as u16);
            assert(c as int == be16v(gf.payload@.subrange(0, 2)));
            let rest = vstd::slice::slice_to_vec(
                vstd::slice::slice_subrange(payload.as_slice(), 2, payload.len()),
            );
            assert(rest@ == gf.payload@.skip(2));
            (Some(c), rest)
        } else {
            (None, payload)
        };
        let is_text = matches!(code, OpCode::Text);
        let data: String = if self.validate_utf8 && is_text {
            if !is_valid_utf8(data_bytes.as_slice()) {
                return Err(
                    WsError::ProtocolError {
                        close_code: 1007,
                        error: ProtocolError::InvalidUtf8,
                    },
                );
            }
            string_from_utf8(data_bytes)
        } else {
            string_from_utf8_lossy(&data_bytes)
        };
        let m = Message { code, data, close_code };
        proof {
            assert(string_msg_post(gf, m));
        }
        Ok(Some(m))
    }

    /// Frame and queue one outbound message: text and binary messages go
    /// through the fragmenting sender; a close message is sent as a single
    /// close frame carrying its code and reason; pings and pongs pass
    /// through whole. Returns how many bytes wait for the transport.
    /// Sending succeeds exactly when the connection is running, the opcode
    /// is sendable and a control payload fits its limit.
    pub fn send(&mut self, msg: Message<String>) -> (r: Result<usize, WsError>)
        ensures
            !(old(self).frame_codec.state is Running) ==> (r matches Err(
                WsError::InvalidConnState(st),
            ) && st == old(self).frame_codec.state && *final(self) == *old(self)),
            old(self).frame_codec.state is Running ==> match msg.code {
                OpCode::Text | OpCode::Binary => r is Ok && exists|fs: Seq<OwnedFrame>|
                    {
                        &&& #[trigger] fragments_post(
                            fs,
                            old(self).frame_codec.encoder.config.mask_send_frame,
                            msg.code,
                            encode_utf8(msg.data@),
                        )
                        &&& final(self).frame_codec.stream.output@ == old(
                            self,
                        ).frame_codec.stream.output@ + wire_of(fs)
                    },
                OpCode::Close => if encode_utf8(msg.data@).len() > 123 {
                    r matches Err(WsError::ProtocolError { close_code: 1002, error }) && error
                        == ProtocolError::ControlFrameTooBig(encode_utf8(msg.data@).len() as usize)
                } else if msg.close_code is None && encode_utf8(msg.data@).len() > 0 {
                    r matches Err(WsError::ProtocolError { close_code: 1002, error }) && error
                        == ProtocolError::InvalidCloseFramePayload
                } else {
                    r is Ok && exists|g: OwnedFrame|
                        {
                            &&& #[trigger] g.wf()
                            &&& opcode_of(g.header.0@) is Close
                            &&& fin_of(g.header.0@)
                            &&& masked_of(g.header.0@) == old(
                                self,
                            ).frame_codec.encoder.config.mask_send_frame
                            &&& g.plain() == crate::frame::close_payload(
                                msg.close_code,
                                encode_utf8(msg.data@),
                            )
                            &&& final(self).frame_codec.stream.output@ == old(
                                self,
                            ).frame_codec.stream.output@ + g.header.0@ + g.payload@
                        } && final(self).frame_codec.state is Closing
                },
                OpCode::Ping | OpCode::Pong => if encode_utf8(msg.data@).len() > 125 {
                    r matches Err(WsError::ProtocolError { close_code: 1002, error }) && error
                        == ProtocolError::ControlFrameTooBig(encode_utf8(msg.data@).len() as usize)
                } else {
                    r is Ok && exists|g: OwnedFrame|
                        {
                            &&& #[trigger] g.wf()
                            &&& opcode_of(g.header.0@) == msg.code
                            &&& fin_of(g.header.0@)
                            &&& masked_of(g.header.0@) == old(
                                self,
                            ).frame_codec.encoder.config.mask_send_frame
                            &&& g.plain() == encode_utf8(msg.data@)
                            &&& final(self).frame_codec.stream.output@ == old(
                                self,
                            ).frame_codec.stream.output@ + g.header.0@ + g.payload@
                        }
                },
                _ => r matches Err(WsError::UnsupportedFrame(c)) && c == msg.code,
            },
            r matches Ok(n) ==> n == final(self).frame_codec.stream.output@.len(),
            final(self).validate_utf8 == old(self).validate_utf8,
            final(self).frame_codec.decoder == old(self).frame_codec.decoder,
            final(self).frame_codec.stream.input == old(self).frame_codec.stream.input,
    {
        if !matches!(self.frame_codec.state, crate::errors::ConnectionState::Running) {
            return Err(WsError::InvalidConnState(self.frame_codec.state));
        }
        match msg.code {
            OpCode::Text | OpCode::Binary => {
                let bytes = msg.data.as_str().as_bytes();
                let n = self.frame_codec.send(msg.code, bytes)?;
                Ok(n)
            },
            OpCode::Close => {
                let reason = msg.data.as_str().as_bytes();
                if reason.len() > 123 {
                    return Err(
                        WsError::ProtocolError {
                            close_code: 1002,
                            error: ProtocolError::ControlFrameTooBig(reason.len()),
                        },
                    );
                }
                if msg.close_code.is_none() && reason.len() > 0 {
                    return Err(
                        WsError::ProtocolError {
                            close_code: 1002,
                            error: ProtocolError::InvalidCloseFramePayload,
                        },
                    );
                }
                let mask = if self.frame_codec.encoder.config.mask_send_frame {
                    Some(random_mask_key())
                } else {
                    None
                };
                let f = OwnedFrame::close_frame(mask, msg.close_code, reason);
                self.frame_codec.send_owned_frame(f)?;
                Ok(self.frame_codec.stream.output.len())
            },
            OpCode::Ping | OpCode::Pong => {
                let bytes = msg.data.as_str().as_bytes();
                if bytes.len() > 125 {
                    return Err(
                        WsError::ProtocolError {
                            close_code: 1002,
                            error: ProtocolError::ControlFrameTooBig(bytes.len()),
                        },
                    );
                }
                let mask = if self.frame_codec.encoder.config.mask_send_frame {
                    Some(random_mask_key())
                } else {
                    None
                };
                let f = OwnedFrame::new(msg.code, mask, bytes);
                self.frame_codec.send_owned_frame(f)?;
                Ok(self.frame_codec.stream.output.len())
            },
            _ => Err(WsError::UnsupportedFrame(msg.code)),
        }
    }
}

/// The read half of a split string codec.
#[derive(Debug)]
pub struct StringReadHalf {
    /// the frame-layer read half
    pub inner: crate::codec::FrameReadHalf,
    /// reject text messages whose payload is not valid utf-8
    pub validate_utf8: bool,
}

/// The write half of a split string codec.
#[derive(Debug)]
pub struct StringWriteHalf {
    /// the frame-layer write half
    pub inner: crate::codec::FrameWriteHalf,
}

impl Split for WsStringCodec {
    type R = StringReadHalf;

    type W = StringWriteHalf;

    /// Split into independent read and write halves; the decoder state and
    /// delivered bytes go to the read half, the encoder state and pending
    /// bytes to the write half.
    fn split(self) -> (StringReadHalf, StringWriteHalf) {
        let validate_utf8 = self.validate_utf8;
        let (r, w) = self.frame_codec.split_parts();
        (StringReadHalf { inner: r, validate_utf8 }, StringWriteHalf { inner: w })
    }
}

} // verus!
