//! The relay envelope: one opaque payload framed as a MessagePack binary
//! string.
//!
//! Encoding and decoding are done by `rmpv`. The contracts here state, over
//! plain byte sequences, the part of MessagePack that the relay wire uses: the
//! three binary-string headers. What `rmpv` makes of any other input is given a
//! name and otherwise left alone.
use rmpv::ValueRef;
use std::io::Cursor;
use std::io::ErrorKind;
use vstd::prelude::*;

verus! {

/// Marker of a binary string whose length fits one byte.
pub const BIN8: u8 = 0xc4;

/// Marker of a binary string whose length fits two bytes.
pub const BIN16: u8 = 0xc5;

/// Marker of a binary string whose length takes four bytes.
pub const BIN32: u8 = 0xc6;

/// What one decoding attempt at the head of a buffer found.
#[derive(Debug, Clone, PartialEq, Eq)]
pub enum Frame {
    /// A complete binary string: its payload, and the number of bytes that
    /// header and payload occupy.
    Binary { payload: Vec<u8>, consumed: usize },
    /// A complete value that is not a binary string.
    Other,
    /// The buffer ends before the value does.
    Truncated,
    /// The decoder gave up for another reason.
    Invalid,
}

/// Mathematical counterpart of [`Frame`].
pub ghost enum FrameView {
    Binary { payload: Seq<u8>, consumed: nat },
    Other,
    Truncated,
    Invalid,
}

impl View for Frame {
    type V = FrameView;

    open spec fn view(&self) -> FrameView {
        match self {
            Frame::Binary { payload, consumed } => FrameView::Binary {
                payload: payload@,
                consumed: *consumed as nat,
            },
            Frame::Other => FrameView::Other,
            Frame::Truncated => FrameView::Truncated,
            Frame::Invalid => FrameView::Invalid,
        }
    }
}

/// How the decoder ends on input that does not open with a binary-string
/// marker.
pub ghost enum Foreign {
    /// A whole value was read.
    Complete,
    /// The input ended inside the value.
    Truncated,
    /// The decoder reported some other failure.
    Invalid,
}

/// The way `rmpv::decode::read_value_ref` ends on `bytes`, for input that is
/// not empty and does not begin with one of the binary-string markers.
pub uninterp spec fn foreign_value(bytes: Seq<u8>) -> Foreign;

/// Whether `b` is one of the three binary-string markers.
pub open spec fn is_binary_marker(b: u8) -> bool {
    b == BIN8 || b == BIN16 || b == BIN32
}

/// Number of length bytes that follow a binary-string marker.
pub open spec fn length_width(marker: u8) -> nat {
    if marker == BIN8 {
        1
    } else if marker == BIN16 {
        2
    } else {
        4
    }
}

/// The big-endian number held in the `width` bytes of `bytes` that start at
/// index 1.
pub open spec fn declared_length(bytes: Seq<u8>, width: nat) -> nat {
    if width == 1 {
        bytes[1] as nat
    } else if width == 2 {
        (bytes[1] as nat) * 256 + bytes[2] as nat
    } else {
        (bytes[1] as nat) * 16777216 + (bytes[2] as nat) * 65536 + (bytes[3] as nat) * 256
            + bytes[4] as nat
    }
}

/// Reading of a buffer that begins with a binary-string marker.
pub open spec fn binary_at(bytes: Seq<u8>) -> FrameView {
    let width = length_width(bytes[0]);
    if bytes.len() < 1 + width {
        FrameView::Truncated
    } else {
        let n = declared_length(bytes, width);
        if bytes.len() < 1 + width + n {
            FrameView::Truncated
        } else {
            FrameView::Binary {
                payload: bytes.subrange(1 + width as int, 1 + width + n as int),
                consumed: 1 + width + n,
            }
        }
    }
}

/// What decoding one value at the head of `bytes` yields, given how the
/// decoder ends on input that is foreign to the relay wire.
pub open spec fn framed(bytes: Seq<u8>, foreign: Foreign) -> FrameView {
    if bytes.len() == 0 {
        FrameView::Truncated
    } else if is_binary_marker(bytes[0]) {
        binary_at(bytes)
    } else {
        match foreign {
            Foreign::Complete => FrameView::Other,
            Foreign::Truncated => FrameView::Truncated,
            Foreign::Invalid => FrameView::Invalid,
        }
    }
}

/// What decoding one value at the head of `bytes` yields.
pub open spec fn frame_at(bytes: Seq<u8>) -> FrameView {
    framed(bytes, foreign_value(bytes))
}

/// Marker and big-endian length that open a binary string of `len` bytes.
pub open spec fn header(len: nat) -> Seq<u8> {
    if len < 256 {
        seq![BIN8, len as u8]
    } else if len < 65536 {
        seq![BIN16, (len / 256) as u8, (len % 256) as u8]
    } else {
        seq![
            BIN32,
            (len / 16777216) as u8,
            (len / 65536 % 256) as u8,
            (len / 256 % 256) as u8,
            (len % 256) as u8,
        ]
    }
}

/// The envelope of `payload`: header, then the payload itself.
pub open spec fn envelope(payload: Seq<u8>) -> Seq<u8> {
    header(payload.len()) + payload
}

/// Largest payload that an envelope can carry.
pub open spec fn max_payload() -> nat {
    0xffff_ffff
}

/// Calls `rmpv::decode::read_value_ref` on a cursor over `bytes`.
///
/// Trusted: on empty input the decoder reports an unexpected end of input; on
/// input that opens with a binary-string marker it reads the big-endian length
/// and then the payload, reporting an unexpected end of input where either is
/// cut short, and leaves the cursor just behind the payload; on any other
/// input it ends as `foreign_value` says, and never with a binary string.
#[verifier::external_body]
pub(crate) fn read_value(bytes: &[u8]) -> (frame: Frame)
    ensures
        frame@ == framed(bytes@, foreign_value(bytes@)),
{
    let mut rd = Cursor::new(bytes);
    match rmpv::decode::read_value_ref(&mut rd) {
        Ok(ValueRef::Binary(v)) => Frame::Binary {
            payload: v.to_vec(),
            consumed: rd.position() as usize,
        },
        Ok(_) => Frame::Other,
        Err(e) if e.kind() == ErrorKind::UnexpectedEof => Frame::Truncated,
        Err(_) => Frame::Invalid,
    }
}

/// Calls `rmpv::encode::write_value_ref` with a binary string, writing into a
/// fresh vector.
///
/// Trusted: the encoder writes the shortest of the three binary-string headers
/// that holds the length, then the payload, and writing into a vector does not
/// fail.
#[verifier::external_body]
fn write_binary(payload: &[u8]) -> (out: Vec<u8>)
    requires
        payload@.len() <= max_payload(),
    ensures
        out@ == envelope(payload@),
{
    let mut out = Vec::new();
    let _ = rmpv::encode::write_value_ref(&mut out, &ValueRef::Binary(payload));
    out
}

/// Frames `payload` for the relay wire. A payload too long for a four-byte
/// length has no envelope.
pub fn encode(payload: &[u8]) -> (out: Option<Vec<u8>>)
    ensures
        payload@.len() <= max_payload() ==> out is Some && out->0@ == envelope(payload@),
        payload@.len() > max_payload() ==> out is None,
{
    if payload.len() > 0xffff_ffff {
        None
    } else {
        Some(write_binary(payload))
    }
}

/// Length of the header that opens a binary string of `len` bytes.
pub open spec fn header_len(len: nat) -> nat {
    if len < 256 {
        2
    } else if len < 65536 {
        3
    } else {
        5
    }
}

/// Decoding an envelope gives back its payload, whatever follows it.
pub proof fn lemma_decode_envelope(payload: Seq<u8>, tail: Seq<u8>)
    requires
        payload.len() <= max_payload(),
    ensures
        envelope(payload).len() == header_len(payload.len()) + payload.len(),
        frame_at(envelope(payload) + tail) == (FrameView::Binary {
            payload,
            consumed: envelope(payload).len(),
        }),
{
    let n = payload.len();
    let e = envelope(payload);
    let all = e + tail;
    let h = header(n);
    assert(h.len() == header_len(n));
    assert(forall|i: int| 0 <= i < h.len() ==> all[i] == h[i]);
    let width = length_width(all[0]);
    assert(all[0] == h[0]);
    assert(declared_length(all, width) == n) by {
        if n < 256 {
            assert(all[1] == h[1]);
        } else if n < 65536 {
            assert(all[1] == h[1]);
            assert(all[2] == h[2]);
        } else {
            assert(all[1] == h[1]);
            assert(all[2] == h[2]);
            assert(all[3] == h[3]);
            assert(all[4] == h[4]);
        }
    }
    assert(all.subrange(1 + width as int, 1 + width + n as int) =~= payload);
}

/// A proper prefix of an envelope reads as truncated.
pub proof fn lemma_decode_prefix(payload: Seq<u8>, cut: int)
    requires
        payload.len() <= max_payload(),
        0 <= cut < envelope(payload).len(),
    ensures
        frame_at(envelope(payload).take(cut)) == FrameView::Truncated,
{
    let n = payload.len();
    let e = envelope(payload);
    let p = e.take(cut);
    let h = header(n);
    assert(h.len() == header_len(n));
    if cut > 0 {
        assert(p[0] == h[0]);
        let width = length_width(p[0]);
        if p.len() >= 1 + width {
            assert(declared_length(p, width) == n) by {
                if n < 256 {
                    assert(p[1] == h[1]);
                } else if n < 65536 {
                    assert(p[1] == h[1]);
                    assert(p[2] == h[2]);
                } else {
                    assert(p[1] == h[1]);
                    assert(p[2] == h[2]);
                    assert(p[3] == h[3]);
                    assert(p[4] == h[4]);
                }
            }
        }
    }
}

} // verus!
