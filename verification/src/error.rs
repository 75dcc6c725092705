//! Failure kinds surfaced by the protocol core.

use vstd::prelude::*;

verus! {

/// Errors of the protocol core. Transport- and configuration-level I/O
/// failures live outside the verified core and are mapped by its callers.
#[derive(Debug, Clone, PartialEq, Eq)]
pub enum ProtocolError {
    /// The configured encoding label names no known character encoding.
    UnknownCodec { codec: String },
    /// A string could not be represented under the active encoding.
    CodecFailed { codec: String, data: String },
    /// An inbound line did not parse as an IRC message.
    ProtocolParse { line: String },
    /// A send was attempted after the transport closed.
    ConnectionClosed,
    /// No inbound traffic arrived in time after a PING was sent.
    PingTimeout,
    /// Every configured nickname was rejected during registration.
    NoUsableNick,
    /// The flood limiter has no token available; the send was not performed.
    FloodWait,
}

} // verus!
