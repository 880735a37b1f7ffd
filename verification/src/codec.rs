//! The framing codec: fixed-width frames out of, and into, a byte buffer.

use bytes::BytesMut;
use crate::buffer::{buf_bytes, frame_of, read_frame};
use crate::wire::{be_bytes, be_value, FRAME_LEN};
use vstd::prelude::*;

verus! {

/// Why the codec could not do its work.
#[derive(Clone, Copy, Debug, PartialEq, Eq, Structural)]
pub enum CodecError {
    /// The destination buffer cannot take one more frame: only `available`
    /// more bytes, fewer than eight, fit in it.
    Capacity { available: usize },
}

/// Turns the front of a byte buffer into a message, and a message into bytes
/// at the back of a byte buffer. It keeps no state between calls: the buffer
/// is all the state there is.
#[derive(Clone, Copy, Debug, Default)]
pub struct IntCodec;

/// What one decoding attempt makes of the bytes `buf`: the message found, if
/// there is a whole one, and the bytes that stay in the buffer.
pub open spec fn decode_spec(buf: Seq<u8>) -> (Option<u64>, Seq<u8>) {
    if buf.len() < FRAME_LEN {
        (None, buf)
    } else {
        (Some(be_value(buf.take(FRAME_LEN as int)) as u64), buf.skip(FRAME_LEN as int))
    }
}

/// How many more bytes a buffer of `len` bytes can take before its length
/// would no longer fit in `usize`.
pub open spec fn free_capacity(len: nat) -> int {
    usize::MAX - len
}

/// What encoding `item` makes of a buffer that holds `buf`: whether it
/// succeeds, and the bytes that the buffer holds afterwards.
pub open spec fn encode_spec(buf: Seq<u8>, item: u64) -> (Result<(), CodecError>, Seq<u8>) {
    if free_capacity(buf.len()) < FRAME_LEN {
        (Err(CodecError::Capacity { available: free_capacity(buf.len()) as usize }), buf)
    } else {
        (Ok(()), buf + be_bytes(item))
    }
}

impl IntCodec {
    /// Takes one message off the front of `src`, if a whole one is there.
    ///
    /// With fewer than eight bytes in `src` the answer is `Ok(None)` and `src`
    /// is left as it was. Otherwise the first eight bytes leave `src` and the
    /// number they stand for is returned; the bytes behind them stay. Decoding
    /// never fails.
    pub fn decode(&mut self, src: &mut BytesMut) -> (r: Result<Option<u64>, CodecError>)
        ensures
            r == Ok::<Option<u64>, CodecError>(decode_spec(buf_bytes(*old(src))).0),
            buf_bytes(*final(src)) == decode_spec(buf_bytes(*old(src))).1,
    {
        if src.len() < FRAME_LEN {
            return Ok(None);
        }
        let eight_bytes = src.split_to(FRAME_LEN);
        let num = read_frame(eight_bytes);
        proof {
            let all = buf_bytes(*old(src));
            crate::wire::lemma_bytes_of_value(all.take(FRAME_LEN as int));
        }
        Ok(Some(num))
    }

    /// Says whether a buffer that holds `len` bytes can take one more frame.
    ///
    /// A buffer grows as it is written to, so the only one that cannot is a
    /// buffer so long that eight more bytes would take its length past
    /// `usize::MAX`. The error names the bytes that would still fit.
    pub fn room_for_frame(len: usize) -> (r: Result<(), CodecError>)
        ensures
            free_capacity(len as nat) >= FRAME_LEN ==> r == Ok::<(), CodecError>(()),
            free_capacity(len as nat) < FRAME_LEN ==> r == Err::<(), CodecError>(
                CodecError::Capacity { available: free_capacity(len as nat) as usize },
            ),
    {
        let available = usize::MAX - len;
        if available < FRAME_LEN {
            Err(CodecError::Capacity { available })
        } else {
            Ok(())
        }
    }

    /// Writes `item` at the end of `dst` as eight bytes, most significant
    /// first, growing `dst` as needed.
    ///
    /// The one buffer this fails on is one that cannot grow by eight bytes
    /// (see [`IntCodec::room_for_frame`]); it is then left as it was.
    pub fn encode(&mut self, item: u64, dst: &mut BytesMut) -> (r: Result<(), CodecError>)
        ensures
            r == encode_spec(buf_bytes(*old(dst)), item).0,
            buf_bytes(*final(dst)) == encode_spec(buf_bytes(*old(dst)), item).1,
    {
        match Self::room_for_frame(dst.len()) {
            Err(e) => Err(e),
            Ok(()) => {
                let frame = frame_of(item);
                dst.extend_from_slice(frame.as_slice());
                Ok(())
            },
        }
    }
}

} // verus!
