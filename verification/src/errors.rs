//! Error taxonomy for the handshake, the frame layer and the extension.
use vstd::prelude::*;

verus! {

/// Lifecycle of a connection; transitions are monotonic.
#[derive(Debug, Clone, Copy, PartialEq, Eq, Structural)]
pub enum ConnectionState {
    /// the connection object exists but nothing was done yet
    Created,
    /// transport bring-up is in progress
    Connecting,
    /// the HTTP upgrade is in progress
    HandShaking,
    /// frames may be sent and received
    Running,
    /// a close frame was sent or received
    Closing,
    /// the connection is finished; no further io is allowed
    Closed,
}

/// Violations of the wire protocol found while decoding a frame.
#[derive(Debug, Clone, Copy, PartialEq, Eq, Structural)]
pub enum ProtocolError {
    /// the buffer is too short to hold what the header promises
    InsufficientLen(usize),
    /// a reserved bit is set although no extension negotiated it
    InvalidLeadingBits(u8),
    /// a reserved opcode value
    InvalidOpcode(u8),
    /// an impossible 7-bit length marker
    InvalidLeadingLen(u8),
    /// the payload length does not match the header
    MisMatchDataLen(usize, usize),
    /// a continuation frame arrived with no fragmented message in progress
    MissInitialFragmentedFrame,
    /// a data frame arrived while a fragmented message was in progress
    NotContinueFrameAfterFragmented,
    /// a control frame with the fin bit clear
    FragmentedControlFrame,
    /// a control frame whose payload exceeds 125 bytes
    ControlFrameTooBig(usize),
    /// a close frame with a 1-byte payload
    InvalidCloseFramePayload,
    /// payload bytes that are not valid utf-8
    InvalidUtf8,
    /// a close code outside the permitted set
    InvalidCloseCode(u16),
    /// a frame payload above the configured maximum
    PayloadTooLarge(usize),
    /// a control frame carrying the compression bit
    CompressedControlFrame,
    /// a compressed data frame while the extension is not negotiated
    NotDeflateDataWhileEnabled,
}

/// Errors surfaced to the caller of the codec, handshake or extension.
#[derive(Debug)]
pub enum WsError {
    /// a url whose scheme is not ws or wss, or with no scheme at all
    InvalidUri(String),
    /// the configured proxy kind is not supported
    UnsupportedProxy(String),
    /// the proxy configuration cannot be parsed
    InvalidProxy(String),
    /// a configured certificate file does not exist
    CertFileNotFound(String),
    /// a configured certificate file cannot be loaded
    LoadCertFailed(String),
    /// transport bring-up failed
    ConnectionFailed(String),
    /// the tls host name cannot be resolved
    TlsDnsFailed(String),
    /// a transport failure during steady state
    IOError(String),
    /// the upgrade was rejected, malformed, or the accept key mismatched
    HandShakeFailed(String),
    /// a wire protocol violation, with the close code the caller should send
    ProtocolError {
        /// close code the caller is expected to send
        close_code: u16,
        /// what was violated
        error: ProtocolError,
    },
    /// the proxy rejected the tunnel
    ProxyError(String),
    /// an operation attempted in the wrong lifecycle state
    InvalidConnState(ConnectionState),
    /// a frame with a reserved opcode
    UnsupportedFrame(crate::frame::OpCode),
    /// the compressor reported failure
    CompressFailed(String),
    /// the decompressor reported failure
    DeCompressFailed(String),
}

impl WsError {
    /// True when this error is a protocol error carrying the given close code
    /// and kind; lets callers check outcomes without an equality on `String`.
    pub fn is_protocol_error(&self, code: u16, kind: ProtocolError) -> (r: bool)
        ensures
            r <==> (self matches WsError::ProtocolError { close_code, error }
                && close_code == code && error == kind),
    {
        match self {
            WsError::ProtocolError { close_code, error } => *close_code == code && *error == kind,
            _ => false,
        }
    }
}

} // verus!
