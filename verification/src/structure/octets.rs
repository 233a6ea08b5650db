//! Byte buffers of the `bytes` crate.
//!
//! What the crate does is stated here and not proved.

use bytes::{Bytes, BytesMut};
use vstd::prelude::*;

verus! {

#[verifier::external_type_specification]
#[verifier::external_body]
pub struct ExBytes(bytes::Bytes);

#[verifier::external_type_specification]
#[verifier::external_body]
pub struct ExBytesMut(bytes::BytesMut);

/// The bytes that a `Bytes` gives access to.
pub uninterp spec fn bytes_of(b: Bytes) -> Seq<u8>;

/// The bytes that a `BytesMut` holds.
pub uninterp spec fn buffer_of(b: BytesMut) -> Seq<u8>;

/// `Bytes::from(Vec<u8>)`: the bytes of the vector.
#[verifier::external_body]
pub(crate) fn bytes_from_vec(v: Vec<u8>) -> (b: Bytes)
    ensures
        bytes_of(b) == v@,
{
    Bytes::from(v)
}

/// `Bytes::len`: how many bytes there are.
#[verifier::external_body]
pub(crate) fn bytes_len(b: &Bytes) -> (n: usize)
    ensures
        n == bytes_of(*b).len(),
{
    b.len()
}

/// Indexing through `Bytes::deref`: the byte at position `i`, which has to exist.
#[verifier::external_body]
pub(crate) fn bytes_at(b: &Bytes, i: usize) -> (x: u8)
    requires
        i < bytes_of(*b).len(),
    ensures
        x == bytes_of(*b)[i as int],
{
    b[i]
}

/// `Bytes::slice`: a view of the bytes from position `from` on.
#[verifier::external_body]
pub(crate) fn bytes_slice_from(b: &Bytes, from: usize) -> (rest: Bytes)
    requires
        from <= bytes_of(*b).len(),
    ensures
        bytes_of(rest) == bytes_of(*b).skip(from as int),
{
    b.slice(from..)
}

/// `Bytes::clone`: the same bytes.
pub assume_specification[ <bytes::Bytes as std::clone::Clone>::clone ](
    b: &bytes::Bytes,
) -> (copy: bytes::Bytes)
    ensures
        bytes_of(copy) == bytes_of(*b),
;

/// `BytesMut::with_capacity`: no bytes, room for `n`. A vector of bytes has at most
/// `isize::MAX` of them.
#[verifier::external_body]
pub(crate) fn buffer_with_capacity(n: usize) -> (b: BytesMut)
    requires
        n <= isize::MAX,
    ensures
        buffer_of(b) == Seq::<u8>::empty(),
{
    BytesMut::with_capacity(n)
}

/// `BytesMut::resize`: cuts the buffer to `n` bytes, or fills it up to `n` bytes with
/// `value`.
#[verifier::external_body]
pub(crate) fn buffer_resize(b: &mut BytesMut, n: usize, value: u8)
    requires
        n <= isize::MAX,
    ensures
        buffer_of(*final(b)) == (if n <= buffer_of(*old(b)).len() {
            buffer_of(*old(b)).take(n as int)
        } else {
            buffer_of(*old(b)) + Seq::new(
                (n - buffer_of(*old(b)).len()) as nat,
                |i: int| value,
            )
        }),
{
    b.resize(n, value)
}

/// `BytesMut::len`: how many bytes there are.
#[verifier::external_body]
pub(crate) fn buffer_len(b: &BytesMut) -> (n: usize)
    ensures
        n == buffer_of(*b).len(),
{
    b.len()
}

/// Overwrites the bytes at the positions `from..to` with the first `n` bytes of `source`.
pub(crate) fn buffer_overwrite(b: &mut BytesMut, from: usize, to: usize, source: &Bytes, n: usize)
    requires
        from <= to <= buffer_of(*old(b)).len(),
        n == to - from,
        n <= bytes_of(*source).len(),
    ensures
        buffer_of(*final(b)) == buffer_of(*old(b)).take(from as int) + bytes_of(*source).take(
            n as int,
        ) + buffer_of(*old(b)).skip(to as int),
{
    let ghost start = buffer_of(*b);
    let bytes: &mut [u8] = buffer_as_mut(b);
    let mut i: usize = 0;
    while i < n
        invariant
            i <= n,
            n == to - from,
            from <= to <= start.len(),
            n <= bytes_of(*source).len(),
            bytes@ == start.take(from as int) + bytes_of(*source).take(i as int) + start.skip(
                from + i,
            ),
        decreases n - i,
    {
        bytes[from + i] = bytes_at(source, i);
        i += 1;
        assert(bytes@ =~= start.take(from as int) + bytes_of(*source).take(i as int) + start.skip(
            from + i,
        ));
    }
}

/// `BytesMut::freeze`: the same bytes, no longer to be changed.
#[verifier::external_body]
pub(crate) fn buffer_freeze(b: BytesMut) -> (frozen: Bytes)
    ensures
        bytes_of(frozen) == buffer_of(b),
{
    b.freeze()
}

/// `BytesMut::capacity`: how many bytes there is room for without a new allocation.
/// Nothing is promised of it.
#[verifier::external_body]
pub(crate) fn buffer_capacity(b: &BytesMut) -> (n: usize) {
    b.capacity()
}

/// `BytesMut::as_mut`: access to the bytes in place.
#[verifier::external_body]
pub(crate) fn buffer_as_mut(b: &mut BytesMut) -> (bytes: &mut [u8])
    ensures
        bytes@ == buffer_of(*old(b)),
        final(bytes)@ == buffer_of(*final(b)),
{
    b.as_mut()
}

/// `BytesMut::truncate`: cuts the buffer to `n` bytes, if it has more.
#[verifier::external_body]
pub(crate) fn buffer_truncate(b: &mut BytesMut, n: usize)
    ensures
        buffer_of(*final(b)) == (if n <= buffer_of(*old(b)).len() {
            buffer_of(*old(b)).take(n as int)
        } else {
            buffer_of(*old(b))
        }),
{
    b.truncate(n)
}

/// `BytesMut::clear`: removes all bytes.
#[verifier::external_body]
pub(crate) fn buffer_clear(b: &mut BytesMut)
    ensures
        buffer_of(*final(b)) == Seq::<u8>::empty(),
{
    b.clear()
}

/// `BytesMut::extend_from_slice`: appends bytes. A vector of bytes has at most
/// `isize::MAX` of them.
#[verifier::external_body]
pub(crate) fn buffer_extend(b: &mut BytesMut, more: &[u8])
    requires
        buffer_of(*old(b)).len() + more@.len() <= isize::MAX,
    ensures
        buffer_of(*final(b)) == buffer_of(*old(b)) + more@,
{
    b.extend_from_slice(more)
}

/// `BytesMut::split_to`: takes the first `at` bytes off into a buffer of their own.
#[verifier::external_body]
pub(crate) fn buffer_split_to(b: &mut BytesMut, at: usize) -> (front: BytesMut)
    requires
        at <= buffer_of(*old(b)).len(),
    ensures
        buffer_of(front) == buffer_of(*old(b)).take(at as int),
        buffer_of(*final(b)) == buffer_of(*old(b)).skip(at as int),
{
    b.split_to(at)
}

} // verus!
