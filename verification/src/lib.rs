//! A verified WebSocket protocol core: frame primitives, an incremental
//! frame codec with fragmentation and validation, the opening handshake,
//! and the permessage-deflate extension.
use vstd::prelude::*;

pub mod binary;
pub mod codec;
pub mod deflate;
pub mod errors;
pub mod frame;
pub mod protocol;
pub mod text;

verus! {

use crate::frame::OpCode;
use vstd::string::StringSliceAdditionalSpecFns;

/// The opcode a payload type is sent under when the caller names none.
pub trait DefaultCode {
    /// The opcode for this payload.
    fn code(&self) -> OpCode;
}

impl DefaultCode for String {
    /// Strings travel as text.
    fn code(&self) -> (r: OpCode)
        ensures
            r == OpCode::Text,
    {
        OpCode::Text
    }
}

impl DefaultCode for Vec<u8> {
    /// Byte buffers travel as binary.
    fn code(&self) -> (r: OpCode)
        ensures
            r == OpCode::Binary,
    {
        OpCode::Binary
    }
}

/// A message as the application sees it: an opcode, a payload, and, on a
/// close message with a body, the close code.
#[derive(Debug, Clone)]
pub struct Message<T> {
    /// the opcode the payload travels under
    pub code: OpCode,
    /// the payload
    pub data: T,
    /// the close code; present only on close messages with a body
    pub close_code: Option<u16>,
}

impl<T> Message<T> {
    /// Consume the message and keep the payload.
    pub fn into(self) -> (r: T)
        ensures
            r == self.data,
    {
        self.data
    }

    /// A message carrying `data` under `code`; a close code of 1000 is
    /// attached when the opcode is close.
    pub fn new(code: OpCode, data: T) -> (r: Message<T>)
        ensures
            r.code == code,
            r.data == data,
            r.close_code == if code is Close {
                Some(1000u16)
            } else {
                None::<u16>
            },
    {
        let close_code = if matches!(code, OpCode::Close) {
            Some(1000)
        } else {
            None
        };
        Message { code, data, close_code }
    }

    /// A close message carrying `code` and `data` as the reason.
    pub fn new_close(code: u16, data: T) -> (r: Message<T>)
        ensures
            r.code is Close,
            r.data == data,
            r.close_code == Some(code),
    {
        Message { code: OpCode::Close, data, close_code: Some(code) }
    }
}

/// Collects what a client asks for in its upgrade request.
#[derive(Debug, Clone)]
pub struct ClientBuilder {
    /// the subprotocols offered
    pub protocols: Vec<String>,
    /// the extensions offered
    pub extensions: Vec<String>,
    /// the protocol version asked for
    pub version: u16,
    /// further request headers, in order
    pub headers: Vec<(String, String)>,
}

impl Default for ClientBuilder {
    /// No protocols, no extensions, no extra headers, version 13.
    fn default() -> (r: Self)
        ensures
            r.protocols@.len() == 0,
            r.extensions@.len() == 0,
            r.headers@.len() == 0,
            r.version == 13,
    {
        ClientBuilder {
            protocols: Vec::new(),
            extensions: Vec::new(),
            version: 13,
            headers: Vec::new(),
        }
    }
}

impl ClientBuilder {
    /// A builder with the defaults.
    pub fn new() -> (r: Self)
        ensures
            r.protocols@.len() == 0,
            r.extensions@.len() == 0,
            r.headers@.len() == 0,
            r.version == 13,
    {
        Self::default()
    }

    /// Offer one more subprotocol.
    pub fn protocol(self, protocol: String) -> (r: Self)
        ensures
            r.protocols@ == self.protocols@.push(protocol),
            r.extensions == self.extensions,
            r.version == self.version,
            r.headers == self.headers,
    {
        let mut b = self;
        b.protocols.push(protocol);
        b
    }

    /// Replace the offered subprotocols.
    pub fn protocols(self, protocols: Vec<String>) -> (r: Self)
        ensures
            r.protocols == protocols,
            r.extensions == self.extensions,
            r.version == self.version,
            r.headers == self.headers,
    {
        Self { protocols, ..self }
    }

    /// Offer one more extension.
    pub fn extension(self, extension: String) -> (r: Self)
        ensures
            r.extensions@ == self.extensions@.push(extension),
            r.protocols == self.protocols,
            r.version == self.version,
            r.headers == self.headers,
    {
        let mut b = self;
        b.extensions.push(extension);
        b
    }

    /// Replace the offered extensions.
    pub fn extensions(self, extensions: Vec<String>) -> (r: Self)
        ensures
            r.extensions == extensions,
            r.protocols == self.protocols,
            r.version == self.version,
            r.headers == self.headers,
    {
        Self { extensions, ..self }
    }

    /// Ask for another protocol version.
    pub fn version(self, version: u16) -> (r: Self)
        ensures
            r.version == version,
            r.protocols == self.protocols,
            r.extensions == self.extensions,
            r.headers == self.headers,
    {
        Self { version, ..self }
    }

    /// Add one request header.
    pub fn header(self, name: String, value: String) -> (r: Self)
        ensures
            r.headers@ == self.headers@.push((name, value)),
            r.protocols == self.protocols,
            r.extensions == self.extensions,
            r.version == self.version,
    {
        let mut b = self;
        b.headers.push((name, value));
        b
    }

    /// Replace the request headers.
    pub fn headers(self, headers: Vec<(String, String)>) -> (r: Self)
        ensures
            r.headers == headers,
            r.protocols == self.protocols,
            r.extensions == self.extensions,
            r.version == self.version,
    {
        Self { headers, ..self }
    }

    /// Serialise the upgrade request this builder stands for, under the
    /// given url and key; the exact bytes are those of
    /// [`protocol::prepare_handshake_request`], with the protocol and
    /// extension lists joined with commas.
    pub fn build_request(&self, uri: &protocol::Uri, mode: protocol::Mode, key: &str) -> (r: Vec<
        u8,
    >)
        ensures
            r@ == protocol::request_head(
                protocol::effective_path(uri.path_and_query@),
                protocol::client_headers(
                    vstd::utf8::encode_utf8(uri.host@),
                    match uri.port {
                        Some(p) => p as int,
                        None => if mode is WS {
                            80int
                        } else {
                            443int
                        },
                    },
                    key.spec_bytes(),
                    self.version as int,
                    protocol::joined_bytes(
                        self.protocols@.map_values(|s: String| vstd::utf8::encode_utf8(s@)),
                    ),
                    protocol::joined_bytes(
                        self.extensions@.map_values(|s: String| vstd::utf8::encode_utf8(s@)),
                    ),
                    self.headers@.map_values(
                        |h: (String, String)|
                            (vstd::utf8::encode_utf8(h.0@), vstd::utf8::encode_utf8(h.1@)),
                    ),
                ),
            ),
    {
        let protocols = crate::protocol::join_with_comma(&self.protocols);
        let extensions = crate::protocol::join_with_comma(&self.extensions);
        protocol::prepare_handshake_request(
            uri,
            mode,
            key,
            self.version,
            protocols.as_slice(),
            extensions.as_slice(),
            &self.headers,
        )
    }
}

/// Builds the server side of a connection; the work happens in
/// [`protocol::handle_handshake`] and the codec factories.
#[derive(Debug, Clone, Copy)]
pub struct ServerBuilder {}

} // verus!
