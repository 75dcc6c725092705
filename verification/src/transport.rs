//! Transport: the sans-I/O heart of a connection. It owns the codec and
//! two byte buffers — inbound bytes not yet framed, outbound bytes not
//! yet handed to the wire — plus a token-bucket flood limiter and a log
//! of every message written. A caller pumps raw bytes in and out; all
//! framing, parsing, serialization and flood accounting happen here.

use vstd::prelude::*;
use crate::util::{find_idx, str_eq};
use crate::error::ProtocolError;
use crate::line::{LF, decoded_text, encoded_bytes};
use crate::codec::{IrcCodec, truncate_frame};
use crate::message::{Message, MessageView, spec_parse, spec_serialize};

verus! {

/// Whether a message is a keep-alive reply, which bypasses flood control.
pub open spec fn is_pong(m: MessageView) -> bool {
    m.command == "PONG"@
}

/// Non-PONG messages in a log slice: what the flood limiter meters.
pub open spec fn count_non_pong(ms: Seq<MessageView>) -> nat
    decreases ms.len(),
{
    if ms.len() == 0 {
        0
    } else {
        count_non_pong(ms.drop_last()) + if is_pong(ms.last()) {
            0nat
        } else {
            1nat
        }
    }
}

/// A token bucket: `capacity` tokens per burst window, one spent per
/// metered message, refilled to full when the window turns.
pub struct TokenBucket {
    capacity: u32,
    tokens: u32,
    spent: Ghost<nat>,
}

impl TokenBucket {
    pub closed spec fn spec_capacity(&self) -> int {
        self.capacity as int
    }

    pub closed spec fn spec_tokens(&self) -> int {
        self.tokens as int
    }

    /// Tokens spent since the last refill.
    pub closed spec fn spec_spent(&self) -> nat {
        self.spent@
    }

    /// Every spent token is accounted: spent plus remaining is capacity.
    pub open spec fn wf(&self) -> bool {
        self.spec_tokens() + self.spec_spent() == self.spec_capacity()
    }

    pub fn new(capacity: u32) -> (b: TokenBucket)
        ensures
            b.wf(),
            b.spec_capacity() == capacity as int,
            b.spec_tokens() == capacity as int,
            b.spec_spent() == 0,
    {
        TokenBucket { capacity, tokens: capacity, spent: Ghost(0) }
    }

    /// Whether a token is available right now.
    pub fn has_token(&self) -> (r: bool)
        ensures
            r == (self.spec_tokens() > 0),
    {
        self.tokens > 0
    }

    /// Spend one token; fails exactly when the bucket is empty.
    pub fn try_acquire(&mut self) -> (r: bool)
        requires
            old(self).wf(),
        ensures
            final(self).wf(),
            final(self).spec_capacity() == old(self).spec_capacity(),
            r == (old(self).spec_tokens() > 0),
            r ==> final(self).spec_tokens() == old(self).spec_tokens() - 1
                && final(self).spec_spent() == old(self).spec_spent() + 1,
            !r ==> *final(self) == *old(self),
    {
        if self.tokens > 0 {
            self.tokens = self.tokens - 1;
            proof {
                self.spent@ = self.spent@ + 1;
            }
            true
        } else {
            false
        }
    }

    /// A new burst window: back to full, nothing spent.
    pub fn refill(&mut self)
        ensures
            final(self).wf(),
            final(self).spec_capacity() == old(self).spec_capacity(),
            final(self).spec_tokens() == final(self).spec_capacity(),
            final(self).spec_spent() == 0,
    {
        self.tokens = self.capacity;
        proof {
            self.spent@ = 0;
        }
    }
}

/// Within one burst window the bucket never lets more than its capacity
/// of metered messages through.
pub proof fn lemma_bucket_bound(b: &TokenBucket)
    requires
        b.wf(),
    ensures
        b.spec_spent() <= b.spec_capacity(),
{
}

/// What the keep-alive timer should do when the idle period elapses.
#[derive(Debug, Clone, Copy, PartialEq, Eq, Structural)]
pub enum PingAction {
    /// Send `PING :<token>` with this fresh token and await a reply.
    SendPing(u64),
    /// The last ping went unanswered within the timeout: the stream ends.
    TimedOut,
}

/// Keep-alive decisions: a ping is sent when the connection has been
/// idle for the ping interval, and an unanswered ping ends the stream.
/// The caller owns the clock; this type owns the decisions.
pub struct Pinger {
    awaiting: bool,
    counter: u64,
}

impl Pinger {
    /// Whether a ping has been sent and not yet answered by any traffic.
    pub closed spec fn spec_awaiting(&self) -> bool {
        self.awaiting
    }

    /// How many pings have been sent so far; tokens are the count, so
    /// they increase monotonically.
    pub closed spec fn spec_counter(&self) -> int {
        self.counter as int
    }

    pub fn new() -> (p: Pinger)
        ensures
            !p.spec_awaiting(),
            p.spec_counter() == 0,
    {
        Pinger { awaiting: false, counter: 0 }
    }

    /// Whether a ping is outstanding right now.
    pub fn is_awaiting(&self) -> (r: bool)
        ensures
            r == self.spec_awaiting(),
    {
        self.awaiting
    }

    /// Any inbound traffic answers an outstanding ping and resets the
    /// idle clock.
    pub fn on_activity(&mut self)
        ensures
            !final(self).spec_awaiting(),
            final(self).spec_counter() == old(self).spec_counter(),
    {
        self.awaiting = false;
    }

    /// The idle timer fired: send a fresh ping the first time, give up
    /// if the previous one is still unanswered.
    pub fn on_idle_expired(&mut self) -> (r: PingAction)
        requires
            old(self).spec_counter() < u64::MAX,
        ensures
            old(self).spec_awaiting() ==> r == PingAction::TimedOut && *final(self) == *old(self),
            !old(self).spec_awaiting() ==> r == PingAction::SendPing(
                (old(self).spec_counter() + 1) as u64,
            ) && final(self).spec_awaiting() && final(self).spec_counter() == old(
                self,
            ).spec_counter() + 1,
    {
        if self.awaiting {
            PingAction::TimedOut
        } else {
            self.awaiting = true;
            self.counter = self.counter + 1;
            PingAction::SendPing(self.counter)
        }
    }
}

/// The sans-I/O transport over one connection.
pub struct Transport {
    codec: IrcCodec,
    read_buf: Vec<u8>,
    written: Vec<u8>,
    out_log: Vec<Message>,
    bucket: TokenBucket,
    burst_mark: Ghost<int>,
    closed: bool,
}

impl Transport {
    pub closed spec fn spec_label(&self) -> Seq<char> {
        self.codec.spec_label()
    }

    pub closed spec fn spec_read_buf(&self) -> Seq<u8> {
        self.read_buf@
    }

    pub closed spec fn spec_written(&self) -> Seq<u8> {
        self.written@
    }

    /// Every message written so far, oldest first.
    pub closed spec fn spec_out_log(&self) -> Seq<MessageView> {
        self.out_log.deep_view()
    }

    pub closed spec fn spec_closed(&self) -> bool {
        self.closed
    }

    pub closed spec fn spec_burst_capacity(&self) -> int {
        self.bucket.spec_capacity()
    }

    pub closed spec fn spec_tokens(&self) -> int {
        self.bucket.spec_tokens()
    }

    /// Index into the log where the current burst window began.
    pub closed spec fn spec_burst_mark(&self) -> int {
        self.burst_mark@
    }

    /// Internal consistency: the scan index sits inside the unframed
    /// bytes with no newline before it, the bucket balances, and the
    /// tokens spent this window are exactly the metered messages written
    /// since the window began.
    pub closed spec fn wf(&self) -> bool {
        &&& self.codec.spec_next() <= self.read_buf@.len()
        &&& forall|j: int| 0 <= j < self.codec.spec_next() ==> self.read_buf@[j] != LF
        &&& self.bucket.wf()
        &&& 0 <= self.burst_mark@ <= self.out_log@.len()
        &&& count_non_pong(self.spec_out_log().skip(self.burst_mark@)) == self.bucket.spec_spent()
    }

    /// A transport over `codec`, its inbound buffer preloaded with
    /// `initial` and its bucket full.
    pub fn new(codec: IrcCodec, initial: Vec<u8>, burst_capacity: u32) -> (t: Transport)
        requires
            codec.spec_next() == 0,
        ensures
            t.wf(),
            t.spec_label() == codec.spec_label(),
            t.spec_read_buf() == initial@,
            t.spec_written() == Seq::<u8>::empty(),
            t.spec_out_log() == Seq::<MessageView>::empty(),
            t.spec_burst_capacity() == burst_capacity as int,
            t.spec_burst_mark() == 0,
            !t.spec_closed(),
    {
        let t = Transport {
            codec,
            read_buf: initial,
            written: Vec::new(),
            out_log: Vec::new(),
            bucket: TokenBucket::new(burst_capacity),
            burst_mark: Ghost(0),
            closed: false,
        };
        proof {
            assert(t.spec_out_log() =~= Seq::<MessageView>::empty());
            assert(t.spec_out_log().skip(0) =~= Seq::<MessageView>::empty());
        }
        t
    }

    /// Hand bytes read from the wire to the framer.
    pub fn feed(&mut self, bytes: &[u8])
        requires
            old(self).wf(),
        ensures
            final(self).wf(),
            final(self).spec_read_buf() == old(self).spec_read_buf() + bytes@,
            final(self).spec_written() == old(self).spec_written(),
            final(self).spec_out_log() == old(self).spec_out_log(),
            final(self).spec_label() == old(self).spec_label(),
            final(self).spec_closed() == old(self).spec_closed(),
            final(self).spec_burst_mark() == old(self).spec_burst_mark(),
            final(self).spec_burst_capacity() == old(self).spec_burst_capacity(),
    {
        self.read_buf.extend_from_slice(bytes);
        proof {
            assert(self.read_buf@ =~= old(self).read_buf@ + bytes@);
        }
    }

    /// Frame and parse the next inbound message, if a complete line is
    /// buffered. A line that does not parse is consumed and reported.
    pub fn next_message(&mut self) -> (r: Result<Option<Message>, ProtocolError>)
        requires
            old(self).wf(),
        ensures
            final(self).wf(),
            final(self).spec_written() == old(self).spec_written(),
            final(self).spec_out_log() == old(self).spec_out_log(),
            final(self).spec_label() == old(self).spec_label(),
            final(self).spec_closed() == old(self).spec_closed(),
            final(self).spec_tokens() == old(self).spec_tokens(),
            final(self).spec_burst_mark() == old(self).spec_burst_mark(),
            final(self).spec_burst_capacity() == old(self).spec_burst_capacity(),
            match find_idx(old(self).spec_read_buf(), LF) {
                None => r == Ok::<Option<Message>, ProtocolError>(None)
                    && final(self).spec_read_buf() == old(self).spec_read_buf(),
                Some(i) => final(self).spec_read_buf() == old(self).spec_read_buf().skip(i + 1)
                    && ({
                    let text = decoded_text(
                        old(self).spec_label(),
                        old(self).spec_read_buf().subrange(0, i + 1),
                    );
                    match spec_parse(text) {
                        Some(v) => r matches Ok(Some(m)) && m@ == v,
                        None => r matches Err(ProtocolError::ProtocolParse { line: l }) && l@
                            == text,
                    }
                }),
            },
    {
        let r = self.codec.decode(&mut self.read_buf);
        proof {
            crate::util::lemma_find_idx(old(self).read_buf@, LF);
        }
        r
    }

    /// Write one message to the wire: serialize, encode, meter it
    /// through the flood limiter (keep-alive PONGs are exempt), append
    /// the frame to the outbound bytes and the message to the log.
    pub fn send(&mut self, msg: Message) -> (r: Result<(), ProtocolError>)
        requires
            old(self).wf(),
        ensures
            final(self).wf(),
            final(self).spec_read_buf() == old(self).spec_read_buf(),
            final(self).spec_label() == old(self).spec_label(),
            final(self).spec_closed() == old(self).spec_closed(),
            final(self).spec_burst_mark() == old(self).spec_burst_mark(),
            final(self).spec_burst_capacity() == old(self).spec_burst_capacity(),
            match r {
                Ok(()) => !old(self).spec_closed()
                    && final(self).spec_out_log() == old(self).spec_out_log().push(msg@)
                    && (match encoded_bytes(
                    old(self).spec_label(),
                    spec_serialize(msg@),
                ) {
                    Some(b) => final(self).spec_written() == old(self).spec_written()
                        + truncate_frame(msg@.tags is Some, b),
                    None => false,
                }) && (is_pong(msg@) ==> final(self).spec_tokens() == old(self).spec_tokens()),
                Err(ProtocolError::ConnectionClosed) => old(self).spec_closed()
                    && *final(self) == *old(self),
                Err(ProtocolError::FloodWait) => !old(self).spec_closed() && !is_pong(msg@)
                    && old(self).spec_tokens() == 0 && *final(self) == *old(self),
                Err(ProtocolError::CodecFailed { codec, data }) => codec@
                    == old(self).spec_label() && data@ == spec_serialize(msg@)
                    && final(self).spec_written() == old(self).spec_written()
                    && final(self).spec_out_log() == old(self).spec_out_log(),
                Err(_) => false,
            },
    {
        if self.closed {
            return Err(ProtocolError::ConnectionClosed);
        }
        let exempt = str_eq(msg.command.as_str(), "PONG");
        if !exempt && !self.bucket.has_token() {
            return Err(ProtocolError::FloodWait);
        }
        match self.codec.encode(&msg, &mut self.written) {
            Ok(()) => {
                if !exempt {
                    let _granted = self.bucket.try_acquire();
                }
                let ghost prev_log = self.out_log.deep_view();
                self.out_log.push(msg);
                proof {
                    assert(self.out_log.deep_view() =~= prev_log.push(msg@));
                    let mark = self.burst_mark@;
                    let s = self.out_log.deep_view().skip(mark);
                    assert(s.drop_last() =~= prev_log.skip(mark));
                    assert(s.last() == msg@);
                }
                Ok(())
            },
            Err(e) => Err(e),
        }
    }

    /// Start a new burst window: refill the bucket.
    pub fn refill_window(&mut self)
        requires
            old(self).wf(),
        ensures
            final(self).wf(),
            final(self).spec_read_buf() == old(self).spec_read_buf(),
            final(self).spec_written() == old(self).spec_written(),
            final(self).spec_out_log() == old(self).spec_out_log(),
            final(self).spec_label() == old(self).spec_label(),
            final(self).spec_closed() == old(self).spec_closed(),
            final(self).spec_burst_capacity() == old(self).spec_burst_capacity(),
            final(self).spec_tokens() == final(self).spec_burst_capacity(),
            final(self).spec_burst_mark() == final(self).spec_out_log().len(),
    {
        self.bucket.refill();
        proof {
            self.burst_mark@ = self.out_log.deep_view().len() as int;
            assert(self.out_log.deep_view().skip(self.burst_mark@) =~= Seq::<
                MessageView,
            >::empty());
        }
    }

    /// Bytes queued for the wire and not yet taken.
    pub fn written_bytes(&self) -> (r: &Vec<u8>)
        ensures
            r@ == self.spec_written(),
    {
        &self.written
    }

    /// Drain the outbound bytes for a pump to write to the wire.
    pub fn take_written(&mut self) -> (r: Vec<u8>)
        requires
            old(self).wf(),
        ensures
            final(self).wf(),
            r@ == old(self).spec_written(),
            final(self).spec_written() == Seq::<u8>::empty(),
            final(self).spec_read_buf() == old(self).spec_read_buf(),
            final(self).spec_out_log() == old(self).spec_out_log(),
            final(self).spec_label() == old(self).spec_label(),
            final(self).spec_closed() == old(self).spec_closed(),
            final(self).spec_burst_mark() == old(self).spec_burst_mark(),
            final(self).spec_burst_capacity() == old(self).spec_burst_capacity(),
    {
        let mut out: Vec<u8> = Vec::new();
        core::mem::swap(&mut out, &mut self.written);
        out
    }

    /// The messages written so far, oldest first.
    pub fn sent_log(&self) -> (r: &Vec<Message>)
        ensures
            r.deep_view() == self.spec_out_log(),
    {
        &self.out_log
    }

    /// Close the transport: later sends fail with `ConnectionClosed`.
    pub fn close(&mut self)
        requires
            old(self).wf(),
        ensures
            final(self).wf(),
            final(self).spec_closed(),
            final(self).spec_read_buf() == old(self).spec_read_buf(),
            final(self).spec_written() == old(self).spec_written(),
            final(self).spec_out_log() == old(self).spec_out_log(),
            final(self).spec_label() == old(self).spec_label(),
            final(self).spec_burst_mark() == old(self).spec_burst_mark(),
            final(self).spec_burst_capacity() == old(self).spec_burst_capacity(),
    {
        self.closed = true;
    }
}

/// Over any one burst window, the number of non-PONG messages written to
/// the wire is at most the configured burst capacity.
pub proof fn lemma_flood_bound(t: &Transport)
    requires
        t.wf(),
    ensures
        count_non_pong(t.spec_out_log().skip(t.spec_burst_mark())) <= t.spec_burst_capacity(),
{
}

} // verus!
