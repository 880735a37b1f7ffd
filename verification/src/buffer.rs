//! The byte buffers of a connection.
//!
//! Buffers are `bytes::BytesMut` values. Verus does not read that crate, so
//! this module states, without proof, what each of the operations used here
//! does to the bytes a buffer holds. Everything else in the crate is proved
//! from these statements.

use bytes::{BigEndian, Buf, BufMut, BytesMut, IntoBuf};
use crate::wire::{be_bytes, be_value, FRAME_LEN};
use vstd::prelude::*;

verus! {

/// `bytes::BytesMut`, taken as an opaque type.
#[verifier::external_type_specification]
#[verifier::external_body]
pub struct ExBytesMut(bytes::BytesMut);

/// The bytes that a buffer holds, first to last: what `&buf[..]` shows.
pub uninterp spec fn buf_bytes(buf: BytesMut) -> Seq<u8>;

/// `BytesMut::new`: the new buffer holds no bytes.
pub assume_specification[ BytesMut::new ]() -> (buf: BytesMut)
    ensures
        buf_bytes(buf) == Seq::<u8>::empty(),
;

/// `BytesMut::len`: the number of bytes held.
pub assume_specification[ BytesMut::len ](buf: &BytesMut) -> (n: usize)
    ensures
        n == buf_bytes(*buf).len(),
;

/// `BytesMut::split_to`: the first `at` bytes leave the buffer and come back
/// as a buffer of their own; the rest stay, in order. The call panics when
/// `at` is beyond the end, which `requires` rules out.
pub assume_specification[ BytesMut::split_to ](buf: &mut BytesMut, at: usize) -> (head: BytesMut)
    requires
        at <= buf_bytes(*old(buf)).len(),
    ensures
        buf_bytes(head) == buf_bytes(*old(buf)).take(at as int),
        buf_bytes(*final(buf)) == buf_bytes(*old(buf)).skip(at as int),
;

/// `BytesMut::extend_from_slice`: the given bytes are added at the end, the
/// buffer growing as needed. The call panics only when the new length would
/// not fit in `usize`, which `requires` rules out.
pub assume_specification[ BytesMut::extend_from_slice ](buf: &mut BytesMut, extend: &[u8])
    requires
        buf_bytes(*old(buf)).len() + extend@.len() <= usize::MAX,
    ensures
        buf_bytes(*final(buf)) == buf_bytes(*old(buf)) + extend@,
;

/// `BytesMut::clear`: afterwards the buffer holds no bytes.
pub assume_specification[ BytesMut::clear ](buf: &mut BytesMut)
    ensures
        buf_bytes(*final(buf)) == Seq::<u8>::empty(),
;

/// `Buf::get_u64::<BigEndian>` on the cursor that `IntoBuf::into_buf` makes of
/// a buffer: the first eight bytes read as one integer, most significant byte
/// first. The call panics on a buffer of fewer than eight bytes, which
/// `requires` rules out.
#[verifier::external_body]
#[allow(deprecated)]
pub(crate) fn read_frame(head: BytesMut) -> (v: u64)
    requires
        buf_bytes(head).len() >= FRAME_LEN,
    ensures
        v == be_value(buf_bytes(head).take(FRAME_LEN as int)),
{
    head.into_buf().get_u64::<BigEndian>()
}

/// `BufMut::put_u64::<BigEndian>` on an empty `Vec<u8>`, which grows as it is
/// written to: the vector then holds the eight bytes of `item`, most
/// significant byte first.
#[verifier::external_body]
#[allow(deprecated)]
pub(crate) fn frame_of(item: u64) -> (frame: Vec<u8>)
    ensures
        frame@ == be_bytes(item),
{
    let mut frame: Vec<u8> = Vec::new();
    frame.put_u64::<BigEndian>(item);
    frame
}

/// `<BytesMut as AsRef<[u8]>>::as_ref`, copied into a vector: the bytes that
/// the buffer holds, in order.
#[verifier::external_body]
pub(crate) fn buf_to_vec(buf: &BytesMut) -> (bytes: Vec<u8>)
    ensures
        bytes@ == buf_bytes(*buf),
{
    buf.as_ref().to_vec()
}

} // verus!
