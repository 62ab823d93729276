//! Reassembly of envelopes from a byte stream that arrives in arbitrary pieces.
//!
//! A [`FrameBuffer`] is the fixed buffer of one proxy connection. Bytes read
//! from the connection are appended to it, complete envelopes are decoded from
//! its front, and what is left of a partial envelope is moved back to the start
//! of the buffer to wait for the bytes that complete it.
pub mod laws;

use crate::envelope::frame_at;
use crate::envelope::read_value;
use crate::envelope::Frame;
use crate::envelope::FrameView;
use vstd::prelude::*;

verus! {

/// Size of a connection's buffer, and so the longest envelope that it can
/// reassemble.
pub const CAPACITY: usize = 8192;

/// Why the stream of a connection cannot be processed any further.
#[derive(Debug, Clone, Copy, PartialEq, Eq, Structural)]
pub enum ProxyError {
    /// A complete value arrived that is not a binary string.
    UnexpectedFrame,
    /// The decoder failed on the buffered bytes.
    Malformed,
    /// The buffer is full and holds no complete envelope, or the bytes offered
    /// do not fit into it.
    Overflow,
}

/// What one decoding attempt means for the connection.
#[derive(Debug, Clone, PartialEq, Eq)]
pub enum Step {
    /// A payload was decoded and is to be sent on; decoding continues.
    Emit(Vec<u8>),
    /// The buffer ends inside an envelope; more bytes are needed.
    Wait,
    /// The connection is to be closed.
    Stop(ProxyError),
}

/// Mathematical counterpart of [`Step`].
pub ghost enum StepView {
    Emit(Seq<u8>),
    Wait,
    Stop(ProxyError),
}

impl View for Step {
    type V = StepView;

    open spec fn view(&self) -> StepView {
        match self {
            Step::Emit(payload) => StepView::Emit(payload@),
            Step::Wait => StepView::Wait,
            Step::Stop(e) => StepView::Stop(*e),
        }
    }
}

/// The step that follows from reading `frame` at the head of `len` buffered
/// bytes. A binary frame that claims no bytes, or more than are buffered,
/// cannot have come from those bytes and counts as malformed.
pub open spec fn step_of(frame: FrameView, len: nat) -> StepView {
    match frame {
        FrameView::Binary { payload, consumed } => if 0 < consumed <= len {
            StepView::Emit(payload)
        } else {
            StepView::Stop(ProxyError::Malformed)
        },
        FrameView::Other => StepView::Stop(ProxyError::UnexpectedFrame),
        FrameView::Truncated => StepView::Wait,
        FrameView::Invalid => StepView::Stop(ProxyError::Malformed),
    }
}

/// Number of buffered bytes that reading `frame` uses up.
pub open spec fn advance_of(frame: FrameView, len: nat) -> nat {
    match frame {
        FrameView::Binary { payload, consumed } => if 0 < consumed <= len {
            consumed
        } else {
            0
        },
        _ => 0,
    }
}

/// What decoding envelope after envelope from the front of a byte sequence
/// yields: the payloads in order, the number of bytes that their envelopes
/// take, and the error that ended the decoding, if one did.
pub ghost struct Decoded {
    pub payloads: Seq<Seq<u8>>,
    pub consumed: nat,
    pub error: Option<ProxyError>,
}

/// Decodes envelope after envelope from the front of `bytes`, until the bytes
/// end, or an envelope is cut short, or something else than an envelope is
/// met.
pub open spec fn decode_frames(bytes: Seq<u8>) -> Decoded
    decreases bytes.len(),
{
    match step_of(frame_at(bytes), bytes.len()) {
        StepView::Emit(payload) => {
            let n = advance_of(frame_at(bytes), bytes.len());
            let rest = decode_frames(bytes.skip(n as int));
            Decoded {
                payloads: seq![payload] + rest.payloads,
                consumed: n + rest.consumed,
                error: rest.error,
            }
        },
        StepView::Wait => Decoded { payloads: Seq::empty(), consumed: 0, error: None },
        StepView::Stop(e) => Decoded { payloads: Seq::empty(), consumed: 0, error: Some(e) },
    }
}

/// The state of a connection after it has taken in some bytes: the payloads
/// that were decoded, the bytes that stay buffered, and the error that closes
/// the connection, if there is one.
pub ghost struct Outcome {
    pub payloads: Seq<Seq<u8>>,
    pub pending: Seq<u8>,
    pub error: Option<ProxyError>,
}

/// What receiving `chunk` does to a connection that has `pending` buffered.
///
/// A chunk that does not fit behind the buffered bytes is refused and nothing
/// changes. Otherwise all complete envelopes are decoded and what follows them
/// stays buffered; if that fills the whole buffer, no further byte could ever
/// complete the envelope, and the connection has overflowed.
pub open spec fn receive_spec(pending: Seq<u8>, chunk: Seq<u8>) -> Outcome {
    if pending.len() + chunk.len() > CAPACITY {
        Outcome { payloads: Seq::empty(), pending, error: Some(ProxyError::Overflow) }
    } else {
        let all = pending + chunk;
        let d = decode_frames(all);
        let rest = all.skip(d.consumed as int);
        Outcome {
            payloads: d.payloads,
            pending: rest,
            error: if d.error is Some {
                d.error
            } else if rest.len() == CAPACITY {
                Some(ProxyError::Overflow)
            } else {
                None
            },
        }
    }
}

/// The payloads held in a vector of buffers.
pub open spec fn payload_views(v: Seq<Vec<u8>>) -> Seq<Seq<u8>> {
    Seq::new(v.len(), |i: int| v[i]@)
}

/// What [`FrameBuffer::receive`] hands back.
#[derive(Debug, Clone, PartialEq, Eq)]
pub struct Received {
    /// The payloads decoded, in the order of their envelopes.
    pub payloads: Vec<Vec<u8>>,
    /// The error that closes the connection, if there is one.
    pub error: Option<ProxyError>,
}

/// The buffer of one proxy connection.
///
/// Its view is the sequence of bytes that were received and not yet consumed
/// by a decoded envelope.
pub struct FrameBuffer {
    buf: Vec<u8>,
    start: usize,
    end: usize,
}

impl View for FrameBuffer {
    type V = Seq<u8>;

    closed spec fn view(&self) -> Seq<u8> {
        self.buf@.subrange(self.start as int, self.end as int)
    }
}

impl FrameBuffer {
    #[verifier::type_invariant]
    spec fn well_formed(self) -> bool {
        &&& self.buf@.len() == CAPACITY
        &&& self.start <= self.end <= CAPACITY
    }

    /// Number of bytes at the front of the buffer that decoded envelopes have
    /// used up since the buffer was last compacted.
    pub closed spec fn offset(&self) -> nat {
        self.start as nat
    }

    /// Number of bytes that can still be appended.
    pub open spec fn room(&self) -> nat {
        (CAPACITY - self.offset() - self@.len()) as nat
    }

    /// An empty buffer.
    pub fn new() -> (b: FrameBuffer)
        ensures
            b@ == Seq::<u8>::empty(),
            b.offset() == 0,
    {
        let b = FrameBuffer { buf: vec![0u8; CAPACITY], start: 0, end: 0 };
        assert(b@ =~= Seq::<u8>::empty());
        b
    }

    /// Number of buffered bytes.
    pub fn len(&self) -> (n: usize)
        ensures
            n == self@.len(),
            self.offset() + n <= CAPACITY,
    {
        proof {
            use_type_invariant(self);
        }
        self.end - self.start
    }

    /// Number of bytes that can still be appended.
    pub fn free(&self) -> (n: usize)
        ensures
            n == self.room(),
    {
        proof {
            use_type_invariant(self);
        }
        CAPACITY - self.end
    }

    /// Appends `chunk` behind the buffered bytes, if there is room for all of
    /// it; otherwise the buffer stays as it is.
    pub fn fill(&mut self, chunk: &[u8]) -> (fits: bool)
        ensures
            fits == (chunk@.len() <= old(self).room()),
            final(self)@ == if fits {
                old(self)@ + chunk@
            } else {
                old(self)@
            },
            final(self).offset() == old(self).offset(),
    {
        proof {
            use_type_invariant(&*self);
        }
        let n = chunk.len();
        if n > CAPACITY - self.end {
            return false;
        }
        let ghost before = self.buf@;
        let end = self.end;
        let mut i: usize = 0;
        while i < n
            invariant
                i <= n,
                n == chunk@.len(),
                end + n <= CAPACITY,
                self.buf@.len() == CAPACITY,
                self.start == old(self).start,
                self.end == end,
                self.start <= end,
                before.len() == CAPACITY,
                forall|j: int| 0 <= j < end ==> self.buf@[j] == before[j],
                forall|j: int| 0 <= j < i ==> self.buf@[end + j] == chunk@[j],
            decreases n - i,
        {
            self.buf[end + i] = chunk[i];
            i += 1;
        }
        self.end = end + n;
        assert(self@ =~= old(self)@ + chunk@);
        true
    }

    /// Takes in the result of one decoding attempt at the head of the buffered
    /// bytes: a binary frame is consumed and its payload handed out, anything
    /// else leaves the buffer as it is.
    pub fn apply(&mut self, frame: Frame) -> (step: Step)
        ensures
            step@ == step_of(frame@, old(self)@.len()),
            final(self)@ == old(self)@.skip(advance_of(frame@, old(self)@.len()) as int),
            final(self).offset() == old(self).offset() + advance_of(frame@, old(self)@.len()),
    {
        proof {
            use_type_invariant(&*self);
        }
        match frame {
            Frame::Binary { payload, consumed } => {
                if 0 < consumed && consumed <= self.end - self.start {
                    self.start = self.start + consumed;
                    assert(self@ =~= old(self)@.skip(consumed as int));
                    Step::Emit(payload)
                } else {
                    assert(self@ =~= old(self)@.skip(0));
                    Step::Stop(ProxyError::Malformed)
                }
            },
            Frame::Other => {
                assert(self@ =~= old(self)@.skip(0));
                Step::Stop(ProxyError::UnexpectedFrame)
            },
            Frame::Truncated => {
                assert(self@ =~= old(self)@.skip(0));
                Step::Wait
            },
            Frame::Invalid => {
                assert(self@ =~= old(self)@.skip(0));
                Step::Stop(ProxyError::Malformed)
            },
        }
    }

    /// Decodes the value at the head of the buffered bytes and takes in the
    /// result.
    pub fn next(&mut self) -> (step: Step)
        ensures
            step@ == step_of(frame_at(old(self)@), old(self)@.len()),
            final(self)@ == old(self)@.skip(
                advance_of(frame_at(old(self)@), old(self)@.len()) as int,
            ),
            final(self).offset() == old(self).offset() + advance_of(
                frame_at(old(self)@),
                old(self)@.len(),
            ),
    {
        proof {
            use_type_invariant(&*self);
        }
        let frame = read_value(&self.buf[self.start..self.end]);
        self.apply(frame)
    }

    /// Moves the buffered bytes to the start of the buffer, so that all the
    /// room behind them can be filled.
    pub fn compact(&mut self)
        ensures
            final(self)@ == old(self)@,
            final(self).offset() == 0,
    {
        proof {
            use_type_invariant(&*self);
        }
        if self.start != 0 {
            let from = self.start;
            let n = self.end - self.start;
            let ghost before = self.buf@;
            let mut i: usize = 0;
            while i < n
                invariant
                    i <= n,
                    0 < from,
                    from + n <= CAPACITY,
                    self.buf@.len() == CAPACITY,
                    self.start == from,
                    self.end == from + n,
                    before.len() == CAPACITY,
                    forall|j: int| 0 <= j < i ==> self.buf@[j] == before[from + j],
                    forall|j: int| i <= j < CAPACITY ==> self.buf@[j] == before[j],
                decreases n - i,
            {
                let b = self.buf[from + i];
                self.buf[i] = b;
                i += 1;
            }
            self.start = 0;
            self.end = n;
            assert(self@ =~= old(self)@);
        }
    }

    /// Takes in the bytes of one read: appends them to the buffer, decodes
    /// every complete envelope, and keeps what is left of a partial one at the
    /// start of the buffer.
    pub fn receive(&mut self, chunk: &[u8]) -> (r: Received)
        ensures
            payload_views(r.payloads@) == receive_spec(old(self)@, chunk@).payloads,
            r.error == receive_spec(old(self)@, chunk@).error,
            final(self)@ == receive_spec(old(self)@, chunk@).pending,
            final(self).offset() == 0,
    {
        self.compact();
        let mut payloads: Vec<Vec<u8>> = Vec::new();
        if !self.fill(chunk) {
            assert(payload_views(payloads@) =~= Seq::<Seq<u8>>::empty());
            return Received { payloads, error: Some(ProxyError::Overflow) };
        }
        proof {
            use_type_invariant(&*self);
        }
        let ghost all = self@;
        let mut error: Option<ProxyError> = None;
        assert(self@ =~= all.skip(0));
        assert(payload_views(payloads@) + decode_frames(self@).payloads =~= decode_frames(
            all,
        ).payloads);
        loop
            invariant_except_break
                error is None,
            invariant
                all.len() <= CAPACITY,
                self.offset() <= all.len(),
                self@ == all.skip(self.offset() as int),
                decode_frames(all).payloads == payload_views(payloads@) + decode_frames(
                    self@,
                ).payloads,
                decode_frames(all).consumed == self.offset() + decode_frames(self@).consumed,
                decode_frames(all).error == decode_frames(self@).error,
            ensures
                decode_frames(all).payloads == payload_views(payloads@),
                decode_frames(all).consumed == self.offset(),
                decode_frames(all).error == error,
            decreases self@.len(),
        {
            let ghost before = self@;
            let ghost collected = payload_views(payloads@);
            match self.next() {
                Step::Emit(payload) => {
                    payloads.push(payload);
                    proof {
                        assert(self@ =~= all.skip(self.offset() as int));
                        assert(payload_views(payloads@) =~= collected.push(payload@));
                        assert(collected.push(payload@) + decode_frames(self@).payloads
                            =~= collected + (seq![payload@] + decode_frames(self@).payloads));
                    }
                },
                Step::Wait => {
                    assert(self@ =~= before);
                    assert(collected + Seq::<Seq<u8>>::empty() =~= collected);
                    break ;
                },
                Step::Stop(e) => {
                    assert(self@ =~= before);
                    assert(collected + Seq::<Seq<u8>>::empty() =~= collected);
                    error = Some(e);
                    break ;
                },
            }
        }
        self.compact();
        if error.is_none() && self.len() == CAPACITY {
            error = Some(ProxyError::Overflow);
        }
        Received { payloads, error }
    }
}

} // verus!
