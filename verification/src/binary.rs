//! The message-level codec for byte-oriented callers: frames in, byte
//! messages out, and the reverse.
use vstd::prelude::*;

use crate::codec::{
    decode_post, fragments_post, random_mask_key, wire_of, BufferStream, FrameCodec, FrameConfig,
};
use crate::errors::{ProtocolError, WsError};
use crate::frame::{be16v, fin_of, masked_of, opcode_of, OpCode, OwnedFrame};
use crate::protocol::{resp_check_ok, standard_handshake_resp_check, HandshakeRequest,
    HandshakeResponse};
use crate::Message;

verus! {

use vstd::utf8::encode_utf8;
use vstd::string::StringSliceAdditionalSpecFns;

/// How a byte message relates to the frame it was read from: the opcode is
/// carried over; a close frame with a body yields its code and the bytes
/// past it; any other frame yields its whole payload and no code.
pub open spec fn bytes_msg_post(f: OwnedFrame, m: Message<Vec<u8>>) -> bool {
    &&& m.code == opcode_of(f.header.0@)
    &&& if opcode_of(f.header.0@) is Close && f.payload@.len() >= 2 {
        &&& m.close_code == Some(be16v(f.payload@.subrange(0, 2)) as u16)
        &&& m.data@ == f.payload@.skip(2)
    } else {
        &&& m.close_code is None
        &&& m.data@ == f.payload@
    }
}

/// What one receive step does: when the connection cannot receive, the
/// call fails with the lifecycle error and changes nothing; otherwise the
/// frame machine runs one step ([`decode_post`]) and its outcome is passed
/// on as is, a message-bearing frame becoming the message
/// [`bytes_msg_post`] describes.
pub open spec fn bytes_receive_post(
    pre: WsBytesCodec,
    post: WsBytesCodec,
    r: Result<Option<Message<Vec<u8>>>, WsError>,
) -> bool {
    let st = pre.frame_codec.state;
    &&& post.frame_codec.stream.output == pre.frame_codec.stream.output
    &&& post.frame_codec.encoder == pre.frame_codec.encoder
    &&& if !(st is Running || st is Closing) {
        &&& r matches Err(WsError::InvalidConnState(s)) && s == st
        &&& post == pre
    } else {
        exists|rr: Result<Option<OwnedFrame>, WsError>|
            {
                &&& #[trigger] decode_post(
                    pre.frame_codec.decoder,
                    post.frame_codec.decoder,
                    pre.frame_codec.stream.input@,
                    post.frame_codec.stream.input@,
                    rr,
                )
                &&& match rr {
                    Ok(None) => r == Ok::<Option<Message<Vec<u8>>>, WsError>(None)
                        && post.frame_codec.state == st,
                    Err(e) => r == Err::<Option<Message<Vec<u8>>>, WsError>(e)
                        && post.frame_codec.state == st,
                    Ok(Some(f)) => {
                        &&& post.frame_codec.state == if opcode_of(f.header.0@) is Close {
                            crate::errors::ConnectionState::Closed
                        } else {
                            st
                        }
                        &&& r matches Ok(Some(m)) && bytes_msg_post(f, m)
                    },
                }
            }
    }
}

/// The message-level codec over byte payloads.
#[derive(Debug)]
pub struct WsBytesCodec {
    /// the frame layer underneath
    pub frame_codec: FrameCodec,
}

impl WsBytesCodec {
    /// A codec with the default (client) options.
    pub fn new(stream: BufferStream) -> (r: Self)
        ensures
            r.frame_codec.stream == stream,
            r.frame_codec.state is Running,
    {
        WsBytesCodec { frame_codec: FrameCodec::new(stream) }
    }

    /// A codec with the given frame options.
    pub fn new_with(stream: BufferStream, config: FrameConfig) -> (r: Self)
        ensures
            r.frame_codec.stream == stream,
            r.frame_codec.state is Running,
            r.frame_codec.encoder.config == config,
            r.frame_codec.decoder.config == config,
    {
        WsBytesCodec { frame_codec: FrameCodec::new_with(stream, config) }
    }

    /// The in-memory stream endpoint, for feeding received bytes and
    /// draining bytes to write.
    pub fn stream_mut(&mut self) -> (r: &mut BufferStream)
        ensures
            *r == old(self).frame_codec.stream,
            final(self).frame_codec.stream == *final(r),
            final(self).frame_codec.encoder == old(self).frame_codec.encoder,
            final(self).frame_codec.decoder == old(self).frame_codec.decoder,
            final(self).frame_codec.state == old(self).frame_codec.state,
    {
        self.frame_codec.stream_mut()
    }

    /// Build the client side once the upgrade response passed the standard
    /// check against the key this client sent.
    pub fn check_fn(key: String, resp: &HandshakeResponse, stream: BufferStream) -> (r: Result<
        Self,
        WsError,
    >)
        ensures
            r is Ok <==> resp_check_ok(encode_utf8(key@), *resp),
            r matches Ok(c) ==> c.frame_codec.state is Running
                && c.frame_codec.encoder.config.mask_send_frame,
    {
        standard_handshake_resp_check(key.as_str(), resp)?;
        Ok(Self::new_with(stream, FrameConfig::default()))
    }

    /// Build the server side from an accepted upgrade request: frames go
    /// out unmasked.
    pub fn factory(_req: &HandshakeRequest, stream: BufferStream) -> (r: Result<Self, WsError>)
        ensures
            r is Ok,
            r matches Ok(c) ==> c.frame_codec.state is Running
                && !c.frame_codec.encoder.config.mask_send_frame,
    {
        let config = FrameConfig { mask_send_frame: false, ..FrameConfig::default() };
        Ok(Self::new_with(stream, config))
    }

    /// Decode the next message: the frame machine runs one step; a close
    /// frame with a body yields its code and the reason bytes, any other
    /// frame its payload. The exact behaviour is [`bytes_receive_post`].
    pub fn receive(&mut self) -> (r: Result<Option<Message<Vec<u8>>>, WsError>)
        ensures
            bytes_receive_post(*old(self), *final(self), r),
    {
        let frame = match self.frame_codec.receive() {
            Ok(Some(f)) => f,
            Ok(None) => {
                return Ok(None);
            },
            Err(e) => {
                return Err(e);
            },
        };
        let ghost gf = frame;
        let code = frame.header.opcode();
        let payload = frame.payload;
        let is_close = matches!(code, OpCode::Close);
        let m = if is_close && payload.len() >= 2 {
            let c: u16 = (payload[0] as u16) * 0x100 + (payload[1] as u16);
            assert(c as int == be16v(gf.payload@.subrange(0, 2)));
            let rest = vstd::slice::slice_to_vec(
                vstd::slice::slice_subrange(payload.as_slice(), 2, payload.len()),
            );
            assert(rest@ == gf.payload@.skip(2));
            Message { code, data: rest, close_code: Some(c) }
        } else {
            Message { code, data: payload, close_code: None }
        };
        proof {
            assert(bytes_msg_post(gf, m));
        }
        Ok(Some(m))
    }

    /// Frame and queue one outbound message, as [`crate::text::WsStringCodec::send`]
    /// does for strings; returns how many bytes wait for the transport.
    /// Sending succeeds exactly when the connection is running, the opcode
    /// is sendable and a control payload fits its limit.
    pub fn send(&mut self, msg: Message<Vec<u8>>) -> (r: Result<usize, WsError>)
        ensures
            !(old(self).frame_codec.state is Running) ==> (r matches Err(
                WsError::InvalidConnState(st),
            ) && st == old(self).frame_codec.state && *final(self) == *old(self)),
            old(self).frame_codec.state is Running ==> match msg.code {
                OpCode::Text | OpCode::Binary => r is Ok && exists|fs: Seq<OwnedFrame>|
                    {
                        &&& #[trigger] fragments_post(
                            fs,
                            old(self).frame_codec.encoder.config.mask_send_frame,
                            msg.code,
                            msg.data@,
                        )
                        &&& final(self).frame_codec.stream.output@ == old(
                            self,
                        ).frame_codec.stream.output@ + wire_of(fs)
                    },
                OpCode::Close => if msg.data@.len() > 123 {
                    r matches Err(WsError::ProtocolError { close_code: 1002, error }) && error
                        == ProtocolError::ControlFrameTooBig(msg.data@.len() as usize)
                } else if msg.close_code is None && msg.data@.len() > 0 {
                    r matches Err(WsError::ProtocolError { close_code: 1002, error }) && error
                        == ProtocolError::InvalidCloseFramePayload
                } else {
                    r is Ok && exists|g: OwnedFrame|
                        {
                            &&& #[trigger] g.wf()
                            &&& opcode_of(g.header.0@) is Close
                            &&& fin_of(g.header.0@)
                            &&& masked_of(g.header.0@) == old(
                                self,
                            ).frame_codec.encoder.config.mask_send_frame
                            &&& g.plain() == crate::frame::close_payload(msg.close_code, msg.data@)
                            &&& final(self).frame_codec.stream.output@ == old(
                                self,
                            ).frame_codec.stream.output@ + g.header.0@ + g.payload@
                        } && final(self).frame_codec.state is Closing
                },
                OpCode::Ping | OpCode::Pong => if msg.data@.len() > 125 {
                    r matches Err(WsError::ProtocolError { close_code: 1002, error }) && error
                        == ProtocolError::ControlFrameTooBig(msg.data@.len() as usize)
                } else {
                    r is Ok && exists|g: OwnedFrame|
                        {
                            &&& #[trigger] g.wf()
                            &&& opcode_of(g.header.0@) == msg.code
                            &&& fin_of(g.header.0@)
                            &&& masked_of(g.header.0@) == old(
                                self,
                            ).frame_codec.encoder.config.mask_send_frame
                            &&& g.plain() == msg.data@
                            &&& final(self).frame_codec.stream.output@ == old(
                                self,
                            ).frame_codec.stream.output@ + g.header.0@ + g.payload@
                        }
                },
                _ => r matches Err(WsError::UnsupportedFrame(c)) && c == msg.code,
            },
            r matches Ok(n) ==> n == final(self).frame_codec.stream.output@.len(),
            final(self).frame_codec.decoder == old(self).frame_codec.decoder,
            final(self).frame_codec.stream.input == old(self).frame_codec.stream.input,
    {
        if !matches!(self.frame_codec.state, crate::errors::ConnectionState::Running) {
            return Err(WsError::InvalidConnState(self.frame_codec.state));
        }
        match msg.code {
            OpCode::Text | OpCode::Binary => {
                let n = self.frame_codec.send(msg.code, msg.data.as_slice())?;
                Ok(n)
            },
            OpCode::Close => {
                if msg.data.len() > 123 {
                    return Err(
                        WsError::ProtocolError {
                            close_code: 1002,
                            error: ProtocolError::ControlFrameTooBig(msg.data.len()),
                        },
                    );
                }
                if msg.close_code.is_none() && msg.data.len() > 0 {
                    return Err(
                        WsError::ProtocolError {
                            close_code: 1002,
                            error: ProtocolError::InvalidCloseFramePayload,
                        },
                    );
                }
                let mask = if self.frame_codec.encoder.config.mask_send_frame {
                    Some(random_mask_key())
                } else {
                    None
                };
                let f = OwnedFrame::close_frame(mask, msg.close_code, msg.data.as_slice());
                self.frame_codec.send_owned_frame(f)?;
                Ok(self.frame_codec.stream.output.len())
            },
            OpCode::Ping | OpCode::Pong => {
                if msg.data.len() > 125 {
                    return Err(
                        WsError::ProtocolError {
                            close_code: 1002,
                            error: ProtocolError::ControlFrameTooBig(msg.data.len()),
                        },
                    );
                }
                let mask = if self.frame_codec.encoder.config.mask_send_frame {
                    Some(random_mask_key())
                } else {
                    None
                };
                let f = OwnedFrame::new(msg.code, mask, msg.data.as_slice());
                self.frame_codec.send_owned_frame(f)?;
                Ok(self.frame_codec.stream.output.len())
            },
            _ => Err(WsError::UnsupportedFrame(msg.code)),
        }
    }
}

} // verus!
