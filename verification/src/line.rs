//! Line codec: splits a growing byte buffer into `\n`-terminated frames
//! and transcodes each frame between bytes and text under a character
//! encoding chosen by its WHATWG label. The transcoding itself is done by
//! the `encoding` crate behind trusted wrappers; the framing is verified.

use vstd::prelude::*;
use crate::util::find_idx;
use crate::error::ProtocolError;

verus! {

/// The byte the codec frames on.
pub const LF: u8 = 10;

/// Whether a WHATWG label names a known encoding; the lookup is a fixed
/// table, so the answer depends on the label alone.
pub uninterp spec fn label_known(label: Seq<char>) -> bool;

/// The text the encoding named by `label` decodes `bytes` to, with the
/// replacement character standing in for undecodable input.
pub uninterp spec fn decoded_text(label: Seq<char>, bytes: Seq<u8>) -> Seq<char>;

/// The bytes the encoding named by `label` encodes `text` to, with
/// replacement for unrepresentable characters; `None` when even the
/// replacement cannot be represented.
pub uninterp spec fn encoded_bytes(label: Seq<char>, text: Seq<char>) -> Option<Seq<u8>>;

/// Relies on `encoding::label::encoding_from_whatwg_label`: a pure lookup
/// of the label in the WHATWG registry, `Some` exactly for known labels.
#[verifier::external_body]
fn whatwg_label_known(label: &str) -> (r: bool)
    ensures
        r == label_known(label@),
{
    encoding::label::encoding_from_whatwg_label(label).is_some()
}

/// Relies on `encoding::label::encoding_from_whatwg_label` and
/// `encoding::types::Encoding::decode` with `DecoderTrap::Replace`, which
/// substitutes U+FFFD for undecodable input and never fails; the result is
/// a function of the label and the bytes alone.
#[verifier::external_body]
fn decode_with_label(label: &str, bytes: &[u8]) -> (r: String)
    requires
        label_known(label@),
    ensures
        r@ == decoded_text(label@, bytes@),
{
    match encoding::label::encoding_from_whatwg_label(label) {
        Some(enc) => match enc.decode(bytes, encoding::DecoderTrap::Replace) {
            Ok(s) => s,
            Err(_) => String::new(),
        },
        None => String::new(),
    }
}

/// Relies on `encoding::label::encoding_from_whatwg_label` and
/// `encoding::types::Encoding::encode` with `EncoderTrap::Replace`, which
/// substitutes a replacement for unrepresentable characters and fails only
/// when the replacement itself cannot be represented; the result is a
/// function of the label and the text alone.
#[verifier::external_body]
pub(crate) fn encode_text(label: &str, text: &str) -> (r: Option<Vec<u8>>)
    requires
        label_known(label@),
    ensures
        match r {
            Some(b) => encoded_bytes(label@, text@) == Some(b@),
            None => encoded_bytes(label@, text@) is None,
        },
{
    match encoding::label::encoding_from_whatwg_label(label) {
        Some(enc) => match enc.encode(text, encoding::EncoderTrap::Replace) {
            Ok(b) => Some(b),
            Err(_) => None,
        },
        None => None,
    }
}

/// A line-based codec parameterized by an encoding.
pub struct LineCodec {
    label: String,
    next_index: usize,
}

impl LineCodec {
    /// The encoding label this codec was built with.
    pub closed spec fn spec_label(&self) -> Seq<char> {
        self.label@
    }

    /// Scan position: everything before it has been checked for `\n`.
    pub closed spec fn spec_next(&self) -> int {
        self.next_index as int
    }

    #[verifier::type_invariant]
    spec fn inv(&self) -> bool {
        label_known(self.label@)
    }

    /// Creates a new instance of LineCodec from the specified encoding.
    pub fn new(label: &str) -> (r: Result<LineCodec, ProtocolError>)
        ensures
            match r {
                Ok(c) => label_known(label@) && c.spec_label() == label@ && c.spec_next() == 0,
                Err(ProtocolError::UnknownCodec { codec }) => !label_known(label@) && codec@
                    == label@,
                Err(_) => false,
            },
    {
        if whatwg_label_known(label) {
            Ok(LineCodec { label: String::from_str(label), next_index: 0 })
        } else {
            Err(ProtocolError::UnknownCodec { codec: String::from_str(label) })
        }
    }

    /// Take the next complete line out of `src`, if one is there. The
    /// buffer is only ever split right after a `\n`; the scan resumes
    /// where the last call left off.
    pub fn decode(&mut self, src: &mut Vec<u8>) -> (r: Option<String>)
        requires
            old(self).spec_next() <= old(src)@.len(),
            forall|j: int| 0 <= j < old(self).spec_next() ==> old(src)@[j] != LF,
        ensures
            final(self).spec_label() == old(self).spec_label(),
            match find_idx(old(src)@, LF) {
                None => r is None && final(src)@ == old(src)@ && final(self).spec_next() == old(
                    src,
                )@.len(),
                Some(i) => r matches Some(line) && line@ == decoded_text(
                    old(self).spec_label(),
                    old(src)@.subrange(0, i + 1),
                ) && final(src)@ == old(src)@.skip(i + 1) && final(self).spec_next() == 0,
            },
    {
        proof {
            use_type_invariant(&*self);
        }
        let n: usize = src.len();
        let mut j: usize = self.next_index;
        loop
            invariant
                0 <= j <= n,
                n == src@.len(),
                forall|k: int| 0 <= k < j ==> src@[k] != LF,
            ensures
                0 <= j <= n,
                n == src@.len(),
                forall|k: int| 0 <= k < j ==> src@[k] != LF,
                j == n || src@[j as int] == LF,
            decreases n - j,
        {
            if j >= n {
                break;
            }
            if src[j] == LF {
                break;
            }
            j = j + 1;
        }
        if j >= n {
            self.next_index = n;
            proof {
                crate::util::lemma_find_idx_none(src@, LF);
            }
            None
        } else {
            proof {
                crate::util::lemma_find_idx_at(src@, LF, j as int);
            }
            let tail = src.split_off(j + 1);
            let line = decode_with_label(self.label.as_str(), src.as_slice());
            *src = tail;
            self.next_index = 0;
            proof {
                assert(old(src)@.subrange(j + 1, old(src)@.len() as int) =~= old(src)@.skip(
                    j + 1,
                ));
            }
            Some(line)
        }
    }

    /// Encode one text line and append its bytes to `dst`.
    pub fn encode(&self, msg: &str, dst: &mut Vec<u8>) -> (r: Result<(), ProtocolError>)
        ensures
            match encoded_bytes(self.spec_label(), msg@) {
                Some(b) => r is Ok && final(dst)@ == old(dst)@ + b,
                None => r matches Err(ProtocolError::CodecFailed { codec, data }) && codec@
                    == self.spec_label() && data@ == msg@ && final(dst)@ == old(dst)@,
            },
    {
        proof {
            use_type_invariant(&*self);
        }
        match encode_text(self.label.as_str(), msg) {
            Some(bytes) => {
                let mut k: usize = 0;
                let nb: usize = bytes.len();
                while k < nb
                    invariant
                        0 <= k <= nb,
                        nb == bytes@.len(),
                        dst@ == old(dst)@ + bytes@.take(k as int),
                    decreases nb - k,
                {
                    dst.push(bytes[k]);
                    proof {
                        assert(old(dst)@ + bytes@.take(k + 1 as int) =~= (old(dst)@ + bytes@.take(
                            k as int,
                        )).push(bytes@[k as int]));
                    }
                    k = k + 1;
                }
                proof {
                    assert(bytes@.take(nb as int) =~= bytes@);
                }
                Ok(())
            },
            None => Err(
                ProtocolError::CodecFailed {
                    codec: self.label.clone(),
                    data: String::from_str(msg),
                },
            ),
        }
    }
}

} // verus!
