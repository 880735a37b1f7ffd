//! The wire format: what eight bytes mean, and which eight bytes a number has.

use vstd::prelude::*;

verus! {

/// Every frame on the wire is exactly this many bytes long.
pub const FRAME_LEN: usize = 8;

/// The number that a frame stands for: its eight bytes read as one integer,
/// most significant byte first.
pub open spec fn be_value(frame: Seq<u8>) -> nat
    recommends
        frame.len() == FRAME_LEN,
{
    (frame[0] as nat) * 0x0100_0000_0000_0000
        + (frame[1] as nat) * 0x0001_0000_0000_0000
        + (frame[2] as nat) * 0x0000_0100_0000_0000
        + (frame[3] as nat) * 0x0000_0001_0000_0000
        + (frame[4] as nat) * 0x0000_0000_0100_0000
        + (frame[5] as nat) * 0x0000_0000_0001_0000
        + (frame[6] as nat) * 0x0000_0000_0000_0100
        + (frame[7] as nat)
}

/// The frame of a number: its eight bytes, most significant byte first.
pub open spec fn be_bytes(v: u64) -> Seq<u8> {
    seq![
        (v / 0x0100_0000_0000_0000) as u8,
        (v / 0x0001_0000_0000_0000 % 0x100) as u8,
        (v / 0x0000_0100_0000_0000 % 0x100) as u8,
        (v / 0x0000_0001_0000_0000 % 0x100) as u8,
        (v / 0x0000_0000_0100_0000 % 0x100) as u8,
        (v / 0x0000_0000_0001_0000 % 0x100) as u8,
        (v / 0x0000_0000_0000_0100 % 0x100) as u8,
        (v % 0x100) as u8,
    ]
}

/// A frame is eight bytes long, whatever the number.
pub proof fn lemma_frame_len(v: u64)
    ensures
        be_bytes(v).len() == FRAME_LEN,
{
}

/// Reading back the frame of a number gives that number.
pub proof fn lemma_value_of_bytes(v: u64)
    ensures
        be_value(be_bytes(v)) == v,
{
    assert((v / 0x0100_0000_0000_0000) * 0x0100_0000_0000_0000
        + (v / 0x0001_0000_0000_0000 % 0x100) * 0x0001_0000_0000_0000
        + (v / 0x0000_0100_0000_0000 % 0x100) * 0x0000_0100_0000_0000
        + (v / 0x0000_0001_0000_0000 % 0x100) * 0x0000_0001_0000_0000
        + (v / 0x0000_0000_0100_0000 % 0x100) * 0x0000_0000_0100_0000
        + (v / 0x0000_0000_0001_0000 % 0x100) * 0x0000_0000_0001_0000
        + (v / 0x0000_0000_0000_0100 % 0x100) * 0x0000_0000_0000_0100
        + (v % 0x100) == v) by (bit_vector);
}

/// Eight bytes always stand for a number that fits in 64 bits, and that
/// number's frame is those same eight bytes: no two frames share a value.
pub proof fn lemma_bytes_of_value(frame: Seq<u8>)
    requires
        frame.len() == FRAME_LEN,
    ensures
        be_value(frame) <= u64::MAX,
        be_bytes(be_value(frame) as u64) == frame,
{
    let (b0, b1, b2, b3) = (frame[0], frame[1], frame[2], frame[3]);
    let (b4, b5, b6, b7) = (frame[4], frame[5], frame[6], frame[7]);
    let v: u64 = be_value(frame) as u64;
    assert({
        &&& v / 0x0100_0000_0000_0000 == b0
        &&& v / 0x0001_0000_0000_0000 % 0x100 == b1
        &&& v / 0x0000_0100_0000_0000 % 0x100 == b2
        &&& v / 0x0000_0001_0000_0000 % 0x100 == b3
        &&& v / 0x0000_0000_0100_0000 % 0x100 == b4
        &&& v / 0x0000_0000_0001_0000 % 0x100 == b5
        &&& v / 0x0000_0000_0000_0100 % 0x100 == b6
        &&& v % 0x100 == b7
    }) by (bit_vector)
        requires
            v == b0 * 0x0100_0000_0000_0000 + b1 * 0x0001_0000_0000_0000 + b2
                * 0x0000_0100_0000_0000 + b3 * 0x0000_0001_0000_0000 + b4 * 0x0000_0000_0100_0000
                + b5 * 0x0000_0000_0001_0000 + b6 * 0x0000_0000_0000_0100 + b7,
    ;
}

/// The frames of several numbers, one after the other.
pub open spec fn frames(values: Seq<u64>) -> Seq<u8>
    decreases values.len(),
{
    if values.len() == 0 {
        Seq::empty()
    } else {
        be_bytes(values.first()) + frames(values.drop_first())
    }
}

/// Several frames take eight bytes each.
pub proof fn lemma_frames_len(values: Seq<u64>)
    ensures
        frames(values).len() == FRAME_LEN * values.len(),
    decreases values.len(),
{
    if values.len() > 0 {
        lemma_frames_len(values.drop_first());
    }
}

/// The frames of two runs of numbers, joined, are the frames of the joined
/// runs.
pub proof fn lemma_frames_concat(a: Seq<u64>, b: Seq<u64>)
    ensures
        frames(a + b) == frames(a) + frames(b),
    decreases a.len(),
{
    if a.len() > 0 {
        lemma_frames_concat(a.drop_first(), b);
        assert((a + b).drop_first() =~= a.drop_first() + b);
    }
}

} // verus!
