//! Whole exchanges on one connection: what is written back for what is
//! received, and in which order.

use crate::codec::decode_spec;
use crate::handler::Handler;
use crate::stream::{
    drained, lemma_drained_accounts_for_every_byte, lemma_drained_append, lemma_drained_frames,
};
use crate::transport::{
    awaited, dispatched, fresh, next, reading, Action, Event, EventView, Phase, Transport,
    TransportView,
};
use crate::wire::{frames, lemma_frames_concat, FRAME_LEN};
use vstd::prelude::*;

verus! {

/// The bytes written, and the state reached, when the driver carries out
/// every write that the connection asks for, one after the other, until the
/// connection asks for something else.
pub open spec fn flushed<H: Handler>(s: TransportView, handler: H) -> (Seq<u8>, TransportView)
    decreases s.inbound.len() + (if s.phase == Phase::HasMessage { 1nat } else { 0nat }),
{
    if s.phase == Phase::HasMessage {
        let (more, last) = flushed(next(s, handler, EventView::Written), handler);
        (s.outbound + more, last)
    } else {
        (Seq::empty(), s)
    }
}

/// The bytes written, and the state reached, when `chunk` is received in
/// state `s` and every write that follows is carried out.
pub open spec fn exchanged<H: Handler>(s: TransportView, handler: H, chunk: Seq<u8>) -> (
    Seq<u8>,
    TransportView,
) {
    flushed(next(s, handler, EventView::Received(chunk)), handler)
}

/// The same for several chunks received one after the other.
pub open spec fn served<H: Handler>(s: TransportView, handler: H, chunks: Seq<Seq<u8>>) -> (
    Seq<u8>,
    TransportView,
)
    decreases chunks.len(),
{
    if chunks.len() == 0 {
        (Seq::empty(), s)
    } else {
        let (written, t) = exchanged(s, handler, chunks.first());
        let (more, last) = served(t, handler, chunks.drop_first());
        (written + more, last)
    }
}

/// The handler answers every one of `requests`.
pub open spec fn all_answered<H: Handler>(handler: H, requests: Seq<u64>) -> bool {
    forall|i: int| 0 <= i < requests.len() ==> (#[trigger] handler.respond(requests[i])) is Ok
}

/// The handler's responses to `requests`, in the order of the requests.
pub open spec fn answers<H: Handler>(handler: H, requests: Seq<u64>) -> Seq<u64> {
    Seq::new(requests.len(), |i: int| handler.respond(requests[i])->Ok_0)
}

impl Transport {
    /// Takes in the bytes of one read and carries the connection on until it
    /// asks for another read or closes, collecting what it asks to write.
    ///
    /// Returned are the bytes to write, in the order in which the connection
    /// asked for them, and the action the connection is left waiting for.
    #[verifier::loop_isolation(false)]
    pub fn exchange<H: Handler>(&mut self, handler: &H, chunk: Vec<u8>) -> (r: (Vec<u8>, Action))
        ensures
            (r.0@, final(self)@) == exchanged(old(self)@, *handler, chunk@),
            r.1@ == awaited(final(self)@),
            !(r.1 is Write),
    {
        let mut written: Vec<u8> = Vec::new();
        let ghost goal = exchanged(self@, *handler, chunk@);
        let mut action = self.step(handler, Event::Received(chunk));
        loop
            invariant
                action@ == awaited(self@),
                goal == (written@ + flushed(self@, *handler).0, flushed(self@, *handler).1),
            decreases self@.inbound.len() + (if self@.phase == Phase::HasMessage {
                1nat
            } else {
                0nat
            }),
        {
            match action {
                Action::Write(bytes) => {
                    written.extend_from_slice(bytes.as_slice());
                    action = self.step(handler, Event::Written);
                },
                _ => {
                    return (written, action);
                },
            }
        }
    }
}

/// Every chunk holds at least one byte, and few enough to fit in the inbound
/// buffer beside an incomplete frame.
pub open spec fn readable(chunks: Seq<Seq<u8>>) -> bool {
    forall|i: int|
        0 <= i < chunks.len() ==> 0 < (#[trigger] chunks[i]).len() <= usize::MAX - (FRAME_LEN - 1)
}

/// A handler that answers every request of a run answers every request of
/// its two parts.
pub proof fn lemma_all_answered_split<H: Handler>(handler: H, a: Seq<u64>, b: Seq<u64>)
    requires
        all_answered(handler, a + b),
    ensures
        all_answered(handler, a),
        all_answered(handler, b),
{
    assert forall|i: int| 0 <= i < a.len() implies (#[trigger] handler.respond(a[i])) is Ok by {
        assert(handler.respond((a + b)[i]) is Ok);
    }
    assert forall|i: int| 0 <= i < b.len() implies (#[trigger] handler.respond(b[i])) is Ok by {
        assert(handler.respond((a + b)[a.len() + i]) is Ok);
    }
}

/// The responses to two runs of requests, joined, are the responses to the
/// joined runs.
pub proof fn lemma_answers_concat<H: Handler>(handler: H, a: Seq<u64>, b: Seq<u64>)
    ensures
        answers(handler, a + b) == answers(handler, a) + answers(handler, b),
{
}

/// After a decoding attempt on `buf`, carrying out every write that follows
/// writes the responses to the messages in `buf`, one frame each and in the
/// order of the messages, and leaves the connection reading, with only the
/// incomplete frame at the end of `buf` still buffered.
pub proof fn lemma_flushed_dispatched<H: Handler>(handler: H, buf: Seq<u8>)
    requires
        all_answered(handler, drained(buf).0),
    ensures
        flushed(dispatched(buf, handler), handler) == (
            frames(answers(handler, drained(buf).0)),
            reading(drained(buf).1),
        ),
    decreases buf.len(),
{
    if buf.len() >= FRAME_LEN {
        let request = decode_spec(buf).0->Some_0;
        let rest = decode_spec(buf).1;
        let later = drained(rest).0;
        lemma_all_answered_split(handler, seq![request], later);
        lemma_flushed_dispatched(handler, rest);
        assert(answers(handler, drained(buf).0).drop_first() =~= answers(handler, later));
    }
}

/// From a reading connection, with `pending` buffered, the chunks of a stream
/// are answered as the stream is: written are the responses to the messages
/// in `pending` followed by the stream, one frame each and in the order of
/// the messages, however the stream was cut into chunks.
pub proof fn lemma_served<H: Handler>(handler: H, pending: Seq<u8>, chunks: Seq<Seq<u8>>)
    requires
        pending.len() < FRAME_LEN,
        readable(chunks),
        all_answered(handler, drained(pending + chunks.flatten()).0),
    ensures
        served(reading(pending), handler, chunks) == (
            frames(answers(handler, drained(pending + chunks.flatten()).0)),
            reading(drained(pending + chunks.flatten()).1),
        ),
    decreases chunks.len(),
{
    if chunks.len() > 0 {
        let first = chunks.first();
        let others = chunks.drop_first();
        let joined = pending + first;
        assert(pending + chunks.flatten() =~= joined + others.flatten());
        lemma_drained_append(joined, others.flatten());
        lemma_drained_accounts_for_every_byte(joined);
        let taken = drained(joined).0;
        let left = drained(joined).1;
        let later = drained(left + others.flatten()).0;
        lemma_all_answered_split(handler, taken, later);
        assert(next(reading(pending), handler, EventView::Received(first)) == dispatched(
            joined,
            handler,
        ));
        lemma_flushed_dispatched(handler, joined);
        assert(readable(others));
        lemma_served(handler, left, others);
        lemma_answers_concat(handler, taken, later);
        lemma_frames_concat(answers(handler, taken), answers(handler, later));
    }
}

/// Responses come back in the order of the requests. On a new connection,
/// whose handler answers each of `requests`, the frames of `requests`
/// (with an incomplete frame `tail` behind them, if any), received in chunks
/// cut anywhere, are answered with the frames of the responses, in the order
/// of the requests and with nothing between them; the connection is then
/// reading, and only `tail` is buffered.
pub proof fn lemma_responses_in_order<H: Handler>(
    handler: H,
    requests: Seq<u64>,
    tail: Seq<u8>,
    chunks: Seq<Seq<u8>>,
)
    requires
        chunks.flatten() == frames(requests) + tail,
        tail.len() < FRAME_LEN,
        readable(chunks),
        all_answered(handler, requests),
    ensures
        served(fresh(), handler, chunks) == (frames(answers(handler, requests)), reading(tail)),
{
    lemma_drained_frames(requests, tail);
    lemma_served(handler, Seq::empty(), chunks);
}

/// Which of two connections a chunk arrived on.
#[derive(Clone, Copy, Debug, PartialEq, Eq, Structural)]
pub enum Side {
    Left,
    Right,
}

/// Two connections served side by side. Chunks arrive in any order, each on
/// one of the two connections, and each is taken in by the connection it
/// arrived on. The result is, for each connection, what was written to it
/// and the state it reached.
pub open spec fn served_both<H: Handler>(
    left: TransportView,
    right: TransportView,
    handler: H,
    arrivals: Seq<(Side, Seq<u8>)>,
) -> ((Seq<u8>, TransportView), (Seq<u8>, TransportView))
    decreases arrivals.len(),
{
    if arrivals.len() == 0 {
        ((Seq::empty(), left), (Seq::empty(), right))
    } else {
        let chunk = arrivals.first().1;
        match arrivals.first().0 {
            Side::Left => {
                let (written, then) = exchanged(left, handler, chunk);
                let (l, r) = served_both(then, right, handler, arrivals.drop_first());
                ((written + l.0, l.1), r)
            },
            Side::Right => {
                let (written, then) = exchanged(right, handler, chunk);
                let (l, r) = served_both(left, then, handler, arrivals.drop_first());
                (l, (written + r.0, r.1))
            },
        }
    }
}

/// The chunks that arrived on `side`, in the order of their arrival.
pub open spec fn arrived_on(arrivals: Seq<(Side, Seq<u8>)>, side: Side) -> Seq<Seq<u8>>
    decreases arrivals.len(),
{
    if arrivals.len() == 0 {
        Seq::empty()
    } else if arrivals.first().0 == side {
        seq![arrivals.first().1] + arrived_on(arrivals.drop_first(), side)
    } else {
        arrived_on(arrivals.drop_first(), side)
    }
}

/// Connections do not mix. Of two connections served side by side, each is
/// written what it would be written if it were served alone with the chunks
/// that arrived on it, and ends in the same state, however the arrivals on
/// the two are interleaved.
pub proof fn lemma_connections_do_not_mix<H: Handler>(
    left: TransportView,
    right: TransportView,
    handler: H,
    arrivals: Seq<(Side, Seq<u8>)>,
)
    ensures
        served_both(left, right, handler, arrivals) == (
            served(left, handler, arrived_on(arrivals, Side::Left)),
            served(right, handler, arrived_on(arrivals, Side::Right)),
        ),
    decreases arrivals.len(),
{
    if arrivals.len() > 0 {
        let chunk = arrivals.first().1;
        let rest = arrivals.drop_first();
        match arrivals.first().0 {
            Side::Left => {
                assert(arrived_on(arrivals, Side::Left).drop_first() =~= arrived_on(
                    rest,
                    Side::Left,
                ));
                lemma_connections_do_not_mix(exchanged(left, handler, chunk).1, right, handler, rest);
            },
            Side::Right => {
                assert(arrived_on(arrivals, Side::Right).drop_first() =~= arrived_on(
                    rest,
                    Side::Right,
                ));
                lemma_connections_do_not_mix(left, exchanged(right, handler, chunk).1, handler, rest);
            },
        }
    }
}

} // verus!
