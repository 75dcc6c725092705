//! An IRC connection: a tagged variant over the three stream kinds. All
//! three share the same verified transport engine; for the network kinds
//! a caller pumps raw bytes between a socket and the transport, while the
//! mock kind is complete in itself — its inbound buffer is preloaded from
//! the configuration and its outbound bytes are kept for inspection.

use vstd::prelude::*;
use crate::util::find_idx;
use crate::error::ProtocolError;
use crate::line::{LF, label_known, decoded_text, encoded_bytes, encode_text};
use crate::codec::{IrcCodec, truncate_frame};
use crate::config::Config;
use crate::message::{Message, MessageView, spec_parse, spec_serialize};
use crate::transport::{Transport, is_pong};

verus! {

/// A connection used by an `IrcServer`.
pub enum Connection {
    /// Plain TCP; the caller owns the socket and pumps bytes.
    Unsecured(Transport),
    /// TLS over TCP; the caller owns the session and pumps bytes.
    Secured(Transport),
    /// In-memory: reads drain the preloaded buffer, writes are captured.
    Mock(Transport),
}

impl Connection {
    /// The transport engine inside, whatever the kind.
    pub open spec fn transport_of(&self) -> Transport {
        match self {
            Connection::Unsecured(t) => *t,
            Connection::Secured(t) => *t,
            Connection::Mock(t) => *t,
        }
    }

    pub open spec fn wf(&self) -> bool {
        self.transport_of().wf()
    }

    pub open spec fn is_mock(&self) -> bool {
        self is Mock
    }

    /// Same variant, whatever the payload.
    pub open spec fn same_kind(&self, other: &Connection) -> bool {
        &&& self is Unsecured <==> other is Unsecured
        &&& self is Secured <==> other is Secured
        &&& self is Mock <==> other is Mock
    }

    /// Creates a new `Connection` using the specified `Config`: a mock
    /// when the configuration asks for one (preloaded with the encoded
    /// initial value), otherwise the TLS or plain variant with empty
    /// buffers, for a caller to pump.
    pub fn new(config: &Config) -> (r: Result<Connection, ProtocolError>)
        ensures
            match r {
                Ok(c) => {
                    &&& c.wf()
                    &&& label_known(config.encoding@)
                    &&& c.transport_of().spec_label() == config.encoding@
                    &&& c.transport_of().spec_written() == Seq::<u8>::empty()
                    &&& c.transport_of().spec_out_log() == Seq::<MessageView>::empty()
                    &&& !c.transport_of().spec_closed()
                    &&& c.transport_of().spec_burst_capacity()
                        == config.max_messages_in_burst as int
                    &&& config.use_mock_connection ==> c is Mock && encoded_bytes(
                        config.encoding@,
                        config.mock_initial_value@,
                    ) == Some(c.transport_of().spec_read_buf())
                    &&& !config.use_mock_connection && config.use_tls ==> c is Secured
                        && c.transport_of().spec_read_buf() == Seq::<u8>::empty()
                    &&& !config.use_mock_connection && !config.use_tls ==> c is Unsecured
                        && c.transport_of().spec_read_buf() == Seq::<u8>::empty()
                },
                Err(ProtocolError::UnknownCodec { codec }) => !label_known(config.encoding@)
                    && codec@ == config.encoding@,
                Err(ProtocolError::CodecFailed { codec, data }) => config.use_mock_connection
                    && codec@ == config.encoding@ && data@ == config.mock_initial_value@
                    && encoded_bytes(config.encoding@, config.mock_initial_value@) is None,
                Err(_) => false,
            },
    {
        let codec = match IrcCodec::new(config.encoding.as_str()) {
            Ok(c) => c,
            Err(e) => {
                return Err(e);
            },
        };
        if config.use_mock_connection {
            let initial = match encode_text(
                config.encoding.as_str(),
                config.mock_initial_value.as_str(),
            ) {
                Some(b) => b,
                None => {
                    return Err(
                        ProtocolError::CodecFailed {
                            codec: config.encoding.clone(),
                            data: config.mock_initial_value.clone(),
                        },
                    );
                },
            };
            Ok(Connection::Mock(Transport::new(codec, initial, config.max_messages_in_burst)))
        } else if config.use_tls {
            Ok(
                Connection::Secured(
                    Transport::new(codec, Vec::new(), config.max_messages_in_burst),
                ),
            )
        } else {
            Ok(
                Connection::Unsecured(
                    Transport::new(codec, Vec::new(), config.max_messages_in_burst),
                ),
            )
        }
    }

    /// A mock connection preloaded with raw bytes, for driving the
    /// protocol logic directly.
    pub fn new_mocked(label: &str, initial: Vec<u8>, burst_capacity: u32) -> (r: Result<
        Connection,
        ProtocolError,
    >)
        ensures
            match r {
                Ok(c) => {
                    &&& c.wf()
                    &&& c is Mock
                    &&& label_known(label@)
                    &&& c.transport_of().spec_label() == label@
                    &&& c.transport_of().spec_read_buf() == initial@
                    &&& c.transport_of().spec_written() == Seq::<u8>::empty()
                    &&& c.transport_of().spec_out_log() == Seq::<MessageView>::empty()
                    &&& !c.transport_of().spec_closed()
                    &&& c.transport_of().spec_burst_capacity() == burst_capacity as int
                },
                Err(ProtocolError::UnknownCodec { codec }) => !label_known(label@) && codec@
                    == label@,
                Err(_) => false,
            },
    {
        match IrcCodec::new(label) {
            Ok(codec) => Ok(Connection::Mock(Transport::new(codec, initial, burst_capacity))),
            Err(e) => Err(e),
        }
    }

    /// Write one message through the transport.
    pub fn send(&mut self, msg: Message) -> (r: Result<(), ProtocolError>)
        requires
            old(self).wf(),
        ensures
            final(self).wf(),
            final(self).same_kind(old(self)),
            final(self).transport_of().spec_read_buf() == old(self).transport_of().spec_read_buf(),
            final(self).transport_of().spec_label() == old(self).transport_of().spec_label(),
            final(self).transport_of().spec_closed() == old(self).transport_of().spec_closed(),
            match r {
                Ok(()) => !old(self).transport_of().spec_closed() && final(self).transport_of().spec_out_log() == old(self).transport_of().spec_out_log().push(
                    msg@,
                ) && (match encoded_bytes(
                    old(self).transport_of().spec_label(),
                    spec_serialize(msg@),
                ) {
                    Some(b) => final(self).transport_of().spec_written() == old(self).transport_of().spec_written() + truncate_frame(msg@.tags is Some, b),
                    None => false,
                }),
                Err(ProtocolError::ConnectionClosed) => old(self).transport_of().spec_closed()
                    && final(self).transport_of() == old(self).transport_of(),
                Err(ProtocolError::FloodWait) => !old(self).transport_of().spec_closed()
                    && !is_pong(msg@) && old(self).transport_of().spec_tokens() == 0 && final(self).transport_of() == old(self).transport_of(),
                Err(ProtocolError::CodecFailed { codec, data }) => codec@ == old(self).transport_of().spec_label() && data@ == spec_serialize(msg@) && final(self).transport_of().spec_written() == old(self).transport_of().spec_written() && final(self).transport_of().spec_out_log() == old(self).transport_of().spec_out_log(),
                Err(_) => false,
            },
    {
        match self {
            Connection::Unsecured(t) => t.send(msg),
            Connection::Secured(t) => t.send(msg),
            Connection::Mock(t) => t.send(msg),
        }
    }

    /// Frame and parse the next inbound message, if one is buffered.
    pub fn next_message(&mut self) -> (r: Result<Option<Message>, ProtocolError>)
        requires
            old(self).wf(),
        ensures
            final(self).wf(),
            final(self).same_kind(old(self)),
            final(self).transport_of().spec_written() == old(self).transport_of().spec_written(),
            final(self).transport_of().spec_out_log() == old(self).transport_of().spec_out_log(),
            final(self).transport_of().spec_label() == old(self).transport_of().spec_label(),
            final(self).transport_of().spec_closed() == old(self).transport_of().spec_closed(),
            final(self).transport_of().spec_tokens() == old(self).transport_of().spec_tokens(),
            final(self).transport_of().spec_burst_mark() == old(self).transport_of().spec_burst_mark(),
            final(self).transport_of().spec_burst_capacity() == old(self).transport_of().spec_burst_capacity(),
            match find_idx(old(self).transport_of().spec_read_buf(), LF) {
                None => r == Ok::<Option<Message>, ProtocolError>(None)
                    && final(self).transport_of().spec_read_buf() == old(self).transport_of().spec_read_buf(),
                Some(i) => final(self).transport_of().spec_read_buf() == old(self).transport_of().spec_read_buf().skip(i + 1) && ({
                    let text = decoded_text(
                        old(self).transport_of().spec_label(),
                        old(self).transport_of().spec_read_buf().subrange(0, i + 1),
                    );
                    match spec_parse(text) {
                        Some(v) => r matches Ok(Some(m)) && m@ == v,
                        None => r matches Err(ProtocolError::ProtocolParse { line: l }) && l@
                            == text,
                    }
                }),
            },
    {
        match self {
            Connection::Unsecured(t) => t.next_message(),
            Connection::Secured(t) => t.next_message(),
            Connection::Mock(t) => t.next_message(),
        }
    }

    /// Hand bytes read from the wire to the framer.
    pub fn feed(&mut self, bytes: &[u8])
        requires
            old(self).wf(),
        ensures
            final(self).wf(),
            final(self).same_kind(old(self)),
            final(self).transport_of().spec_read_buf() == old(self).transport_of().spec_read_buf()
                + bytes@,
            final(self).transport_of().spec_written() == old(self).transport_of().spec_written(),
            final(self).transport_of().spec_out_log() == old(self).transport_of().spec_out_log(),
            final(self).transport_of().spec_label() == old(self).transport_of().spec_label(),
    {
        match self {
            Connection::Unsecured(t) => t.feed(bytes),
            Connection::Secured(t) => t.feed(bytes),
            Connection::Mock(t) => t.feed(bytes),
        }
    }

    /// Drain the outbound bytes for a pump to write to the wire.
    pub fn take_written(&mut self) -> (r: Vec<u8>)
        requires
            old(self).wf(),
        ensures
            final(self).wf(),
            final(self).same_kind(old(self)),
            r@ == old(self).transport_of().spec_written(),
            final(self).transport_of().spec_written() == Seq::<u8>::empty(),
            final(self).transport_of().spec_read_buf() == old(self).transport_of().spec_read_buf(),
            final(self).transport_of().spec_out_log() == old(self).transport_of().spec_out_log(),
            final(self).transport_of().spec_label() == old(self).transport_of().spec_label(),
    {
        match self {
            Connection::Unsecured(t) => t.take_written(),
            Connection::Secured(t) => t.take_written(),
            Connection::Mock(t) => t.take_written(),
        }
    }

    /// Start a new burst window for the flood limiter.
    pub fn refill_window(&mut self)
        requires
            old(self).wf(),
        ensures
            final(self).wf(),
            final(self).same_kind(old(self)),
            final(self).transport_of().spec_read_buf() == old(self).transport_of().spec_read_buf(),
            final(self).transport_of().spec_written() == old(self).transport_of().spec_written(),
            final(self).transport_of().spec_out_log() == old(self).transport_of().spec_out_log(),
            final(self).transport_of().spec_label() == old(self).transport_of().spec_label(),
            final(self).transport_of().spec_tokens() == final(self).transport_of().spec_burst_capacity(),
    {
        match self {
            Connection::Unsecured(t) => t.refill_window(),
            Connection::Secured(t) => t.refill_window(),
            Connection::Mock(t) => t.refill_window(),
        }
    }

    /// Gets a view of the captured outbound bytes if and only if this
    /// connection is a mock. Otherwise, this will always return `None`.
    /// This is used for unit testing.
    pub fn log_view(&self) -> (r: Option<&Vec<u8>>)
        ensures
            match r {
                Some(b) => self is Mock && b@ == self.transport_of().spec_written(),
                None => !(self is Mock),
            },
    {
        match self {
            Connection::Mock(t) => Some(t.written_bytes()),
            _ => None,
        }
    }

    /// The messages written so far, oldest first.
    pub fn sent_log(&self) -> (r: &Vec<Message>)
        ensures
            r.deep_view() == self.transport_of().spec_out_log(),
    {
        match self {
            Connection::Unsecured(t) => t.sent_log(),
            Connection::Secured(t) => t.sent_log(),
            Connection::Mock(t) => t.sent_log(),
        }
    }
}

} // verus!
