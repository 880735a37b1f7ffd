//! Byte streams: what repeated decoding makes of them, however they arrive.

use crate::codec::{decode_spec, encode_spec, CodecError};
use crate::wire::{be_bytes, frames, lemma_bytes_of_value, lemma_value_of_bytes, FRAME_LEN};
use vstd::prelude::*;

verus! {

/// Every message that one decoding attempt after the other takes off `buf`,
/// in the order taken, and the bytes that stay behind once an attempt finds
/// no whole message.
pub open spec fn drained(buf: Seq<u8>) -> (Seq<u64>, Seq<u8>)
    decreases buf.len(),
{
    match decode_spec(buf).0 {
        None => (Seq::empty(), buf),
        Some(v) => {
            let (more, last) = drained(decode_spec(buf).1);
            (seq![v] + more, last)
        },
    }
}

/// The same for bytes that arrive in pieces: each chunk joins what the
/// chunks before it left behind, and the buffer is drained after each.
pub open spec fn fed(buf: Seq<u8>, chunks: Seq<Seq<u8>>) -> (Seq<u64>, Seq<u8>)
    decreases chunks.len(),
{
    if chunks.len() == 0 {
        (Seq::empty(), buf)
    } else {
        let (messages, rest) = drained(buf + chunks.first());
        let (more, last) = fed(rest, chunks.drop_first());
        (messages + more, last)
    }
}

/// Round trip: encoding a number into an empty buffer succeeds, and decoding
/// what it wrote gives the number back and empties the buffer.
pub proof fn lemma_round_trip(v: u64)
    ensures
        encode_spec(Seq::empty(), v) == (Ok::<(), CodecError>(()), be_bytes(v)),
        decode_spec(encode_spec(Seq::empty(), v).1) == (Some(v), Seq::<u8>::empty()),
{
    lemma_decode_front(v, Seq::empty());
}

/// A frame at the front of a buffer decodes to its number, and exactly the
/// bytes behind it stay.
pub proof fn lemma_decode_front(v: u64, rest: Seq<u8>)
    ensures
        decode_spec(be_bytes(v) + rest) == (Some(v), rest),
{
    lemma_value_of_bytes(v);
}

/// Until the last byte of a frame has arrived, decoding reports that the
/// message is incomplete and leaves the bytes received so far untouched.
pub proof fn lemma_partial_frame(v: u64, k: int)
    requires
        0 <= k < FRAME_LEN,
    ensures
        decode_spec(be_bytes(v).take(k)) == (None::<u64>, be_bytes(v).take(k)),
{
}

/// What draining leaves behind is less than a frame, and nothing is lost or
/// made up: the frames of the messages taken, followed by what is left, are
/// the bytes that were there.
pub proof fn lemma_drained_accounts_for_every_byte(buf: Seq<u8>)
    ensures
        drained(buf).1.len() < FRAME_LEN,
        frames(drained(buf).0) + drained(buf).1 == buf,
    decreases buf.len(),
{
    if buf.len() >= FRAME_LEN {
        let head = buf.take(FRAME_LEN as int);
        let rest = buf.skip(FRAME_LEN as int);
        lemma_drained_accounts_for_every_byte(rest);
        lemma_bytes_of_value(head);
        assert(drained(buf).0.drop_first() =~= drained(rest).0);
        assert(head + rest =~= buf);
    }
}

/// Draining the frames of some numbers, with less than a frame behind them,
/// gives exactly those numbers, in order, and leaves exactly what was behind.
pub proof fn lemma_drained_frames(values: Seq<u64>, tail: Seq<u8>)
    requires
        tail.len() < FRAME_LEN,
    ensures
        drained(frames(values) + tail) == (values, tail),
    decreases values.len(),
{
    if values.len() > 0 {
        let rest = frames(values.drop_first()) + tail;
        lemma_drained_frames(values.drop_first(), tail);
        assert(frames(values) + tail =~= be_bytes(values.first()) + rest);
        lemma_decode_front(values.first(), rest);
    }
}

/// Draining a buffer that holds `x` followed by `y` takes the same messages
/// as draining `x`, then adding `y` to what was left and draining again.
pub proof fn lemma_drained_append(x: Seq<u8>, y: Seq<u8>)
    ensures
        drained(x + y) == (
            drained(x).0 + drained(drained(x).1 + y).0,
            drained(drained(x).1 + y).1,
        ),
    decreases x.len(),
{
    if x.len() >= FRAME_LEN {
        let rest = x.skip(FRAME_LEN as int);
        lemma_drained_append(rest, y);
        assert((x + y).skip(FRAME_LEN as int) =~= rest + y);
    }
}

/// How a stream is cut into chunks does not show: feeding the chunks one by
/// one yields the messages, and leaves the bytes, that draining the whole
/// stream at once does.
pub proof fn lemma_chunking_does_not_show(buf: Seq<u8>, chunks: Seq<Seq<u8>>)
    requires
        buf.len() < FRAME_LEN,
    ensures
        fed(buf, chunks) == drained(buf + chunks.flatten()),
    decreases chunks.len(),
{
    if chunks.len() > 0 {
        let first = chunks.first();
        let others = chunks.drop_first();
        let rest = drained(buf + first).1;
        lemma_drained_accounts_for_every_byte(buf + first);
        lemma_chunking_does_not_show(rest, others);
        lemma_drained_append(buf + first, others.flatten());
        assert(buf + chunks.flatten() =~= (buf + first) + others.flatten());
    }
}

} // verus!
