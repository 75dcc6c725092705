//! IRC codec: layers message parsing and serialization over the line
//! codec. Inbound, each `\n`-terminated frame is decoded to text and
//! parsed; outbound, a message is serialized into exactly one line ending
//! in `\r\n`, encoded, and size-capped before emission.

use vstd::prelude::*;
use crate::util::find_idx;
use crate::error::ProtocolError;
use crate::line::{LineCodec, LF, label_known, decoded_text, encoded_bytes};
use crate::message::{Message, spec_parse, spec_serialize};

verus! {

/// Longest frame emitted for a message without tags.
pub const PLAIN_FRAME_LIMIT: usize = 512;

/// Longest frame emitted for a message carrying tags.
pub const TAGGED_FRAME_LIMIT: usize = 8192;

/// The emitted frame: the encoded line, cut at the applicable limit.
pub open spec fn truncate_frame(has_tags: bool, b: Seq<u8>) -> Seq<u8> {
    let limit: int = if has_tags {
        TAGGED_FRAME_LIMIT as int
    } else {
        PLAIN_FRAME_LIMIT as int
    };
    if b.len() > limit {
        b.subrange(0, limit)
    } else {
        b
    }
}

/// A codec turning byte frames into messages and back.
pub struct IrcCodec {
    line: LineCodec,
}

impl IrcCodec {
    /// The encoding label this codec was built with.
    pub closed spec fn spec_label(&self) -> Seq<char> {
        self.line.spec_label()
    }

    /// Scan position of the underlying line codec.
    pub closed spec fn spec_next(&self) -> int {
        self.line.spec_next()
    }

    /// Creates a new IrcCodec over the encoding named by `label`.
    pub fn new(label: &str) -> (r: Result<IrcCodec, ProtocolError>)
        ensures
            match r {
                Ok(c) => label_known(label@) && c.spec_label() == label@ && c.spec_next() == 0,
                Err(ProtocolError::UnknownCodec { codec }) => !label_known(label@) && codec@
                    == label@,
                Err(_) => false,
            },
    {
        match LineCodec::new(label) {
            Ok(line) => Ok(IrcCodec { line }),
            Err(e) => Err(e),
        }
    }

    /// Take the next complete line out of `src` and parse it. A frame
    /// that does not parse is consumed and reported, not fatal.
    pub fn decode(&mut self, src: &mut Vec<u8>) -> (r: Result<Option<Message>, ProtocolError>)
        requires
            old(self).spec_next() <= old(src)@.len(),
            forall|j: int| 0 <= j < old(self).spec_next() ==> old(src)@[j] != LF,
        ensures
            final(self).spec_label() == old(self).spec_label(),
            match find_idx(old(src)@, LF) {
                None => r == Ok::<Option<Message>, ProtocolError>(None) && final(src)@ == old(
                    src,
                )@ && final(self).spec_next() == old(src)@.len(),
                Some(i) => final(src)@ == old(src)@.skip(i + 1) && final(self).spec_next() == 0
                    && ({
                    let text = decoded_text(old(self).spec_label(), old(src)@.subrange(0, i + 1));
                    match spec_parse(text) {
                        Some(v) => r matches Ok(Some(m)) && m@ == v,
                        None => r matches Err(ProtocolError::ProtocolParse { line: l }) && l@
                            == text,
                    }
                }),
            },
    {
        match self.line.decode(src) {
            None => Ok(None),
            Some(text) => match Message::parse(text.as_str()) {
                Ok(m) => Ok(Some(m)),
                Err(e) => Err(e),
            },
        }
    }

    /// Serialize one message, encode it, cap it at the frame limit, and
    /// append the frame to `dst`.
    pub fn encode(&self, msg: &Message, dst: &mut Vec<u8>) -> (r: Result<(), ProtocolError>)
        ensures
            match encoded_bytes(self.spec_label(), spec_serialize(msg@)) {
                Some(b) => r is Ok && final(dst)@ == old(dst)@ + truncate_frame(
                    msg@.tags is Some,
                    b,
                ),
                None => r matches Err(ProtocolError::CodecFailed { codec, data }) && codec@
                    == self.spec_label() && data@ == spec_serialize(msg@) && final(dst)@ == old(
                    dst,
                )@,
            },
    {
        let text = msg.into_string();
        let mut frame: Vec<u8> = Vec::new();
        match self.line.encode(text.as_str(), &mut frame) {
            Ok(()) => {
                let limit: usize = match &msg.tags {
                    Some(_) => TAGGED_FRAME_LIMIT,
                    None => PLAIN_FRAME_LIMIT,
                };
                if frame.len() > limit {
                    frame.truncate(limit);
                }
                proof {
                    assert(frame@ == truncate_frame(
                        msg@.tags is Some,
                        encoded_bytes(self.spec_label(), spec_serialize(msg@))->Some_0,
                    ));
                }
                dst.append(&mut frame);
                Ok(())
            },
            Err(e) => Err(e),
        }
    }
}

} // verus!
