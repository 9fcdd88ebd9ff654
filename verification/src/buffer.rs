//! The growable byte buffer that frames are written to and read from:
//! `bytes::BytesMut`, with the contracts this crate relies on.
//!
//! Nothing in this file is proved. Each function makes one call into the
//! `bytes` crate, and its contract restates that crate's documentation over
//! [`buffer_bytes`].

use bytes::{Buf, BufMut, BytesMut};
use vstd::prelude::*;

verus! {

/// `bytes::BytesMut`: a growable buffer of bytes. What it holds is
/// [`buffer_bytes`]; nothing else is known of a value.
#[verifier::external_type_specification]
#[verifier::external_body]
pub struct ExBytesMut(BytesMut);

/// The bytes a buffer holds, first to last.
pub uninterp spec fn buffer_bytes(b: BytesMut) -> Seq<u8>;

/// The four bytes of `n`, most significant first.
pub open spec fn be32(n: u32) -> Seq<u8> {
    seq![
        (n / 0x100_0000) as u8,
        ((n / 0x1_0000) % 0x100) as u8,
        ((n / 0x100) % 0x100) as u8,
        (n % 0x100) as u8,
    ]
}

/// `BytesMut::len`: the number of bytes held.
#[verifier::external_body]
pub(crate) fn buffer_len(b: &BytesMut) -> (n: usize)
    ensures
        n == buffer_bytes(*b).len(),
{
    b.len()
}

/// The buffer's contents as a slice, through `BytesMut`'s `Deref`.
#[verifier::external_body]
pub(crate) fn buffer_slice(b: &BytesMut) -> (s: &[u8])
    ensures
        s@ == buffer_bytes(*b),
{
    &b[..]
}

/// `Buf::advance`: drops the first `n` bytes. It panics past the end, so
/// `n` stays within the length.
#[verifier::external_body]
pub(crate) fn buffer_advance(b: &mut BytesMut, n: usize)
    requires
        n <= buffer_bytes(*old(b)).len(),
    ensures
        buffer_bytes(*final(b)) == buffer_bytes(*old(b)).skip(n as int),
{
    b.advance(n)
}

/// `BytesMut::split_to`: hands out the first `n` bytes as a buffer of their
/// own and keeps the rest. It panics past the end, so `n` stays within the
/// length.
#[verifier::external_body]
pub(crate) fn buffer_split_to(b: &mut BytesMut, n: usize) -> (head: BytesMut)
    requires
        n <= buffer_bytes(*old(b)).len(),
    ensures
        buffer_bytes(head) == buffer_bytes(*old(b)).take(n as int),
        buffer_bytes(*final(b)) == buffer_bytes(*old(b)).skip(n as int),
{
    b.split_to(n)
}

/// `BytesMut::reserve`: makes room for `n` more bytes and leaves the
/// contents alone. It panics when the new capacity overflows `usize`.
#[verifier::external_body]
pub(crate) fn buffer_reserve(b: &mut BytesMut, n: usize)
    requires
        buffer_bytes(*old(b)).len() + n <= usize::MAX,
    ensures
        buffer_bytes(*final(b)) == buffer_bytes(*old(b)),
{
    b.reserve(n)
}

/// `BufMut::put_slice`: appends `src`, growing the buffer as needed.
#[verifier::external_body]
pub(crate) fn buffer_put_slice(b: &mut BytesMut, src: &[u8])
    requires
        buffer_bytes(*old(b)).len() + src@.len() <= usize::MAX,
    ensures
        buffer_bytes(*final(b)) == buffer_bytes(*old(b)) + src@,
{
    b.put_slice(src)
}

/// `BufMut::put_u32`: appends `n` as four bytes in big-endian order.
#[verifier::external_body]
pub(crate) fn buffer_put_u32(b: &mut BytesMut, n: u32)
    requires
        buffer_bytes(*old(b)).len() + 4 <= usize::MAX,
    ensures
        buffer_bytes(*final(b)) == buffer_bytes(*old(b)) + be32(n),
{
    b.put_u32(n)
}

} // verus!
