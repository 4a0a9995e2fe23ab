//! Reference-counted byte buffers of the `bytes` crate.

use bytes::{Bytes, BytesMut};
use vstd::prelude::*;

verus! {

#[verifier::external_type_specification]
#[verifier::external_body]
pub struct ExBytes(Bytes);

#[verifier::external_type_specification]
#[verifier::external_body]
pub struct ExBytesMut(BytesMut);

/// The bytes that a `Bytes` holds.
pub uninterp spec fn bytes_content(b: Bytes) -> Seq<u8>;

/// The bytes that a `BytesMut` holds.
pub uninterp spec fn bytes_mut_content(b: BytesMut) -> Seq<u8>;

/// `BytesMut::with_capacity`: an empty buffer.
#[verifier::external_body]
pub(crate) fn bytes_mut_with_capacity(capacity: usize) -> (r: BytesMut)
    requires
        capacity <= isize::MAX,
    ensures
        bytes_mut_content(r) == Seq::<u8>::empty(),
{
    BytesMut::with_capacity(capacity)
}

/// `BytesMut::extend_from_slice`: appends the slice.
#[verifier::external_body]
pub(crate) fn bytes_mut_extend(buf: &mut BytesMut, extend: &[u8])
    requires
        bytes_mut_content(*old(buf)).len() + extend@.len() <= isize::MAX,
    ensures
        bytes_mut_content(*final(buf)) == bytes_mut_content(*old(buf)) + extend@,
{
    buf.extend_from_slice(extend)
}

/// `BytesMut::freeze`: the same bytes, no longer writable.
#[verifier::external_body]
pub(crate) fn bytes_mut_freeze(buf: BytesMut) -> (r: Bytes)
    ensures
        bytes_content(r) == bytes_mut_content(buf),
{
    buf.freeze()
}

/// `Bytes::as_ref`: the bytes as a slice.
#[verifier::external_body]
pub(crate) fn bytes_as_slice(b: &Bytes) -> (r: &[u8])
    ensures
        r@ == bytes_content(*b),
{
    b.as_ref()
}

/// `Bytes::slice` of the range from `at` to the end: the bytes from `at` on.
#[verifier::external_body]
pub(crate) fn bytes_from(b: &Bytes, at: usize) -> (r: Bytes)
    requires
        at <= bytes_content(*b).len(),
    ensures
        bytes_content(r) == bytes_content(*b).skip(at as int),
{
    b.slice(at..)
}

/// `Bytes::try_into_mut`: the same bytes, writable where nobody else shares
/// them, and handed back where somebody does. Which of the two is not stated.
#[verifier::external_body]
pub(crate) fn bytes_try_into_mut(b: Bytes) -> (r: Result<BytesMut, Bytes>)
    ensures
        match r {
            Ok(unique) => bytes_mut_content(unique) == bytes_content(b),
            Err(shared) => bytes_content(shared) == bytes_content(b),
        },
{
    b.try_into_mut()
}

/// `BytesMut::from` of a slice: a copy of it.
#[verifier::external_body]
pub(crate) fn bytes_mut_copy(source: &[u8]) -> (r: BytesMut)
    ensures
        bytes_mut_content(r) == source@,
{
    BytesMut::from(source)
}

/// `BytesMut::as_mut`: the bytes as a slice to write to. The buffer ends up with
/// what the slice does.
#[verifier::external_body]
pub(crate) fn bytes_mut_as_mut_slice(buf: &mut BytesMut) -> (r: &mut [u8])
    ensures
        r@ == bytes_mut_content(*old(buf)),
        bytes_mut_content(*final(buf)) == final(r)@,
{
    buf.as_mut()
}

} // verus!
