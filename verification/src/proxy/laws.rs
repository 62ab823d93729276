//! What holds of a connection however its stream is cut into reads.
use crate::envelope::envelope;
use crate::envelope::lemma_decode_envelope;
use crate::envelope::lemma_decode_prefix;
use crate::envelope::max_payload;
use crate::proxy::decode_frames;
use crate::proxy::receive_spec;
use crate::proxy::Decoded;
use crate::proxy::Outcome;
use crate::proxy::ProxyError;
use crate::proxy::CAPACITY;
use vstd::prelude::*;

verus! {

/// The byte stream that carries `payloads`: their envelopes, one after another.
pub open spec fn stream(payloads: Seq<Seq<u8>>) -> Seq<u8>
    decreases payloads.len(),
{
    if payloads.len() == 0 {
        Seq::empty()
    } else {
        envelope(payloads[0]) + stream(payloads.skip(1))
    }
}

/// The bytes of `chunks`, one chunk after another.
pub open spec fn concat(chunks: Seq<Seq<u8>>) -> Seq<u8>
    decreases chunks.len(),
{
    if chunks.len() == 0 {
        Seq::empty()
    } else {
        chunks[0] + concat(chunks.skip(1))
    }
}

/// Whether each of `payloads` is short enough to have an envelope.
pub open spec fn encodable(payloads: Seq<Seq<u8>>) -> bool {
    forall|i: int| 0 <= i < payloads.len() ==> (#[trigger] payloads[i]).len() <= max_payload()
}

/// What a connection that has `pending` buffered makes of `chunks`, received
/// one after another, up to the first error.
pub open spec fn feed(pending: Seq<u8>, chunks: Seq<Seq<u8>>) -> Outcome
    decreases chunks.len(),
{
    if chunks.len() == 0 {
        Outcome { payloads: Seq::empty(), pending, error: None }
    } else {
        let first = receive_spec(pending, chunks[0]);
        if first.error is Some {
            first
        } else {
            let later = feed(first.pending, chunks.skip(1));
            Outcome {
                payloads: first.payloads + later.payloads,
                pending: later.pending,
                error: later.error,
            }
        }
    }
}

/// Number of envelopes of `stream(payloads)` that lie wholly within its first
/// `n` bytes.
pub open spec fn whole_envelopes(payloads: Seq<Seq<u8>>, n: nat) -> nat
    decreases payloads.len(),
{
    if payloads.len() == 0 || n < envelope(payloads[0]).len() {
        0
    } else {
        1 + whole_envelopes(payloads.skip(1), (n - envelope(payloads[0]).len()) as nat)
    }
}

/// Decoding the first `n` bytes of a stream of envelopes yields the payloads of
/// the envelopes that lie wholly within them, and stops without error at the
/// envelope that is cut short.
pub proof fn lemma_decode_stream_prefix(payloads: Seq<Seq<u8>>, n: nat)
    requires
        encodable(payloads),
        n <= stream(payloads).len(),
    ensures
        ({
            let k = whole_envelopes(payloads, n);
            let d = decode_frames(stream(payloads).take(n as int));
            &&& k <= payloads.len()
            &&& d.payloads == payloads.take(k as int)
            &&& d.consumed == stream(payloads.take(k as int)).len()
            &&& d.error is None
            &&& d.consumed <= n
            &&& stream(payloads) == stream(payloads.take(k as int)) + stream(
                payloads.skip(k as int),
            )
            &&& k < payloads.len() ==> n - d.consumed < envelope(payloads[k as int]).len()
            &&& k == payloads.len() ==> n == d.consumed
        }),
    decreases payloads.len(),
{
    let whole = stream(payloads);
    let all = whole.take(n as int);
    if payloads.len() == 0 {
        assert(payloads.take(0) =~= payloads);
        assert(payloads.skip(0) =~= payloads);
        assert(whole + whole =~= whole);
    } else {
        let first = payloads[0];
        let e = envelope(first);
        let others = payloads.skip(1);
        assert(encodable(others)) by {
            assert forall|i: int| 0 <= i < others.len() implies (#[trigger] others[i]).len()
                <= max_payload() by {
                assert(others[i] == payloads[i + 1]);
            }
        }
        if n < e.len() {
            assert(all =~= e.take(n as int));
            lemma_decode_prefix(first, n as int);
            assert(payloads.take(0) =~= Seq::<Seq<u8>>::empty());
            assert(payloads.skip(0) =~= payloads);
            assert(stream(payloads.take(0)) + whole =~= whole);
        } else {
            let m = (n - e.len()) as nat;
            let tail = stream(others).take(m as int);
            assert(all =~= e + tail);
            lemma_decode_envelope(first, tail);
            assert(all.skip(e.len() as int) =~= tail);
            lemma_decode_stream_prefix(others, m);
            let k1 = whole_envelopes(others, m);
            let k = k1 + 1;
            assert(payloads.take(k as int).skip(1) =~= others.take(k1 as int));
            assert(payloads.take(k as int)[0] == first);
            assert(payloads.skip(k as int) =~= others.skip(k1 as int));
            assert(seq![first] + others.take(k1 as int) =~= payloads.take(k as int));
            assert(stream(payloads.take(k as int)) == e + stream(others.take(k1 as int)));
            assert(whole =~= stream(payloads.take(k as int)) + stream(payloads.skip(k as int)));
            if k < payloads.len() {
                assert(payloads[k as int] == others[k1 as int]);
            }
        }
    }
}

/// Decoding a whole stream of envelopes yields every payload, in order, and
/// uses up every byte.
pub proof fn lemma_decode_stream(payloads: Seq<Seq<u8>>)
    requires
        encodable(payloads),
    ensures
        decode_frames(stream(payloads)) == (Decoded {
            payloads,
            consumed: stream(payloads).len(),
            error: None,
        }),
{
    let whole = stream(payloads);
    let n = whole.len();
    lemma_decode_stream_prefix(payloads, n);
    assert(whole.take(n as int) =~= whole);
    let k = whole_envelopes(payloads, n);
    let d = decode_frames(whole);
    if k < payloads.len() {
        lemma_stream_len(payloads.skip(k as int));
    }
    assert(payloads.take(k as int) =~= payloads);
}

/// A stream is at least as long as its first envelope, which is not empty.
pub proof fn lemma_stream_len(payloads: Seq<Seq<u8>>)
    requires
        payloads.len() > 0,
    ensures
        stream(payloads).len() >= envelope(payloads[0]).len() >= 2,
{
}

/// The chunking law for a connection that is already inside a stream: what is
/// buffered is the beginning of the stream's next envelope, and the chunks are
/// the rest of the stream.
proof fn lemma_feed_stream(pending: Seq<u8>, chunks: Seq<Seq<u8>>, payloads: Seq<Seq<u8>>)
    requires
        encodable(payloads),
        pending + concat(chunks) == stream(payloads),
        payloads.len() > 0 ==> pending.len() < envelope(payloads[0]).len(),
        feed(pending, chunks).error != Some(ProxyError::Overflow),
    ensures
        feed(pending, chunks) == (Outcome { payloads, pending: Seq::empty(), error: None }),
    decreases chunks.len(),
{
    let whole = stream(payloads);
    if chunks.len() == 0 {
        assert(pending + concat(chunks) =~= pending);
        if payloads.len() > 0 {
            lemma_stream_len(payloads);
        }
        assert(payloads =~= Seq::<Seq<u8>>::empty());
        assert(pending =~= Seq::<u8>::empty());
    } else {
        let c = chunks[0];
        let later_chunks = chunks.skip(1);
        let all = pending + c;
        let n = all.len();
        assert(whole =~= all + concat(later_chunks));
        assert(all =~= whole.take(n as int));
        lemma_decode_stream_prefix(payloads, n);
        let k = whole_envelopes(payloads, n);
        let d = decode_frames(all);
        let first = receive_spec(pending, c);
        let rest = all.skip(d.consumed as int);
        let done = payloads.take(k as int);
        let left = payloads.skip(k as int);
        assert(first.error is None);
        assert(first.pending == rest);
        assert(whole.skip(d.consumed as int) =~= rest + concat(later_chunks));
        assert(whole.skip(d.consumed as int) =~= stream(left));
        assert(encodable(left)) by {
            assert forall|i: int| 0 <= i < left.len() implies (#[trigger] left[i]).len()
                <= max_payload() by {
                assert(left[i] == payloads[i + k]);
            }
        }
        if left.len() > 0 {
            assert(left[0] == payloads[k as int]);
        }
        lemma_feed_stream(rest, later_chunks, left);
        assert(done + left =~= payloads);
    }
}

/// However a stream of envelopes is cut into chunks, a connection that
/// receives the chunks one after another, and whose buffer does not overflow on
/// the way, decodes exactly the payloads of the stream, each once and in order,
/// and is left with nothing buffered: the same payloads that decoding the whole
/// stream at once yields.
pub proof fn lemma_chunking_preserves_payloads(payloads: Seq<Seq<u8>>, chunks: Seq<Seq<u8>>)
    requires
        encodable(payloads),
        concat(chunks) == stream(payloads),
        feed(Seq::empty(), chunks).error != Some(ProxyError::Overflow),
    ensures
        feed(Seq::empty(), chunks) == (Outcome { payloads, pending: Seq::empty(), error: None }),
        feed(Seq::empty(), chunks).payloads == decode_frames(stream(payloads)).payloads,
{
    assert(Seq::<u8>::empty() + concat(chunks) =~= concat(chunks));
    if payloads.len() > 0 {
        lemma_stream_len(payloads);
    }
    lemma_feed_stream(Seq::empty(), chunks, payloads);
    lemma_decode_stream(payloads);
}

/// A connection inside a stream whose envelopes and chunks are within the
/// bounds ends without error.
proof fn lemma_feed_has_room(
    pending: Seq<u8>,
    chunks: Seq<Seq<u8>>,
    payloads: Seq<Seq<u8>>,
    longest: nat,
    largest: nat,
)
    requires
        encodable(payloads),
        pending + concat(chunks) == stream(payloads),
        payloads.len() > 0 ==> pending.len() < envelope(payloads[0]).len(),
        forall|i: int| 0 <= i < payloads.len() ==> envelope(#[trigger] payloads[i]).len() <= longest,
        forall|j: int| 0 <= j < chunks.len() ==> (#[trigger] chunks[j]).len() <= largest,
        longest + largest <= CAPACITY + 1,
        longest <= CAPACITY,
    ensures
        feed(pending, chunks).error is None,
    decreases chunks.len(),
{
    let whole = stream(payloads);
    if chunks.len() > 0 {
        let c = chunks[0];
        let later_chunks = chunks.skip(1);
        let all = pending + c;
        let n = all.len();
        assert(whole =~= all + concat(later_chunks));
        assert(all =~= whole.take(n as int));
        if payloads.len() > 0 {
            assert(envelope(payloads[0]).len() <= longest);
        }
        assert(n <= CAPACITY);
        lemma_decode_stream_prefix(payloads, n);
        let k = whole_envelopes(payloads, n);
        let d = decode_frames(all);
        let first = receive_spec(pending, c);
        let rest = all.skip(d.consumed as int);
        let left = payloads.skip(k as int);
        if k < payloads.len() {
            assert(envelope(payloads[k as int]).len() <= longest);
        }
        assert(first.error is None);
        assert(whole.skip(d.consumed as int) =~= rest + concat(later_chunks));
        assert(whole.skip(d.consumed as int) =~= stream(left));
        assert(encodable(left)) by {
            assert forall|i: int| 0 <= i < left.len() implies (#[trigger] left[i]).len()
                <= max_payload() by {
                assert(left[i] == payloads[i + k]);
            }
        }
        assert forall|i: int| 0 <= i < left.len() implies envelope(#[trigger] left[i]).len()
            <= longest by {
            assert(left[i] == payloads[i + k]);
        }
        assert forall|j: int| 0 <= j < later_chunks.len() implies (#[trigger] later_chunks[j]).len()
            <= largest by {
            assert(later_chunks[j] == chunks[j + 1]);
        }
        if left.len() > 0 {
            assert(left[0] == payloads[k as int]);
        }
        lemma_feed_has_room(rest, later_chunks, left, longest, largest);
    }
}

/// Chunks that are small enough never overflow the buffer: where no envelope of
/// the stream is longer than `longest` and no chunk longer than `largest`, and
/// a chunk of that size fits behind all but the last byte of an envelope of
/// that length, the connection decodes every payload of the stream. Chunks of
/// one byte are small enough for every envelope that fits the buffer.
pub proof fn lemma_small_chunks_preserve_payloads(
    payloads: Seq<Seq<u8>>,
    chunks: Seq<Seq<u8>>,
    longest: nat,
    largest: nat,
)
    requires
        encodable(payloads),
        concat(chunks) == stream(payloads),
        forall|i: int| 0 <= i < payloads.len() ==> envelope(#[trigger] payloads[i]).len() <= longest,
        forall|j: int| 0 <= j < chunks.len() ==> (#[trigger] chunks[j]).len() <= largest,
        longest + largest <= CAPACITY + 1,
        longest <= CAPACITY,
    ensures
        feed(Seq::empty(), chunks) == (Outcome { payloads, pending: Seq::empty(), error: None }),
{
    assert(Seq::<u8>::empty() + concat(chunks) =~= concat(chunks));
    if payloads.len() > 0 {
        lemma_stream_len(payloads);
    }
    lemma_feed_has_room(Seq::empty(), chunks, payloads, longest, largest);
    lemma_chunking_preserves_payloads(payloads, chunks);
}

/// An envelope that fits the buffer and arrives in two reads, cut at any
/// place, is decoded by the second read: the first read leaves its bytes
/// buffered, and the second completes it and leaves nothing behind.
pub proof fn lemma_straddling_envelope(payload: Seq<u8>, cut: int)
    requires
        payload.len() <= max_payload(),
        envelope(payload).len() <= CAPACITY,
        0 <= cut < envelope(payload).len(),
    ensures
        receive_spec(Seq::empty(), envelope(payload).take(cut)) == (Outcome {
            payloads: Seq::empty(),
            pending: envelope(payload).take(cut),
            error: None,
        }),
        receive_spec(envelope(payload).take(cut), envelope(payload).skip(cut)) == (Outcome {
            payloads: seq![payload],
            pending: Seq::empty(),
            error: None,
        }),
{
    let e = envelope(payload);
    let head = e.take(cut);
    let tail = e.skip(cut);
    lemma_decode_prefix(payload, cut);
    assert(Seq::<u8>::empty() + head =~= head);
    assert(head.skip(0) =~= head);
    assert(head + tail =~= e);
    let one = seq![payload];
    assert(one.skip(1) =~= Seq::<Seq<u8>>::empty());
    assert(stream(one) =~= e) by {
        assert(stream(one) == envelope(one[0]) + stream(one.skip(1)));
        assert(stream(one.skip(1)) =~= Seq::<u8>::empty());
    }
    lemma_decode_stream(one);
    assert(e.skip(e.len() as int) =~= Seq::<u8>::empty());
}

} // verus!
