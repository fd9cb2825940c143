//! Byte buffers: what the parts of a fingerprint are written to, and what
//! is hashed.
//!
//! The buffers are those of `bytes`. What they hold is given a name here,
//! and the few calls that are made say what they do to it.

use bytes::{BufMut, Bytes, BytesMut};
use vstd::prelude::*;

verus! {

/// `bytes::Bytes`: a buffer of bytes that is read only.
#[verifier::external_type_specification]
#[verifier::external_body]
pub struct ExBytes(bytes::Bytes);

/// `bytes::BytesMut`: a buffer of bytes that grows as it is written to.
#[verifier::external_type_specification]
#[verifier::external_body]
pub struct ExBytesMut(bytes::BytesMut);

/// The bytes that a buffer holds, in their order.
pub uninterp spec fn bytes_contents(buffer: Bytes) -> Seq<u8>;

/// The bytes that a growing buffer holds, in their order.
pub uninterp spec fn bytes_mut_contents(buffer: BytesMut) -> Seq<u8>;

/// `Bytes::copy_from_slice`: a buffer that holds the bytes of the slice.
#[verifier::external_body]
pub(crate) fn bytes_from_slice(data: &[u8]) -> (r: Bytes)
    ensures
        bytes_contents(r) == data@,
{
    Bytes::copy_from_slice(data)
}

/// `Bytes::as_ref`: the bytes of the buffer as a slice.
#[verifier::external_body]
pub(crate) fn bytes_as_slice(buffer: &Bytes) -> (r: &[u8])
    ensures
        r@ == bytes_contents(*buffer),
{
    buffer.as_ref()
}

/// `BytesMut::with_capacity`: an empty buffer. A capacity beyond
/// `isize::MAX` is not taken.
#[verifier::external_body]
pub(crate) fn bytes_mut_with_capacity(capacity: usize) -> (r: BytesMut)
    requires
        capacity <= isize::MAX,
    ensures
        bytes_mut_contents(r) == Seq::<u8>::empty(),
{
    BytesMut::with_capacity(capacity)
}

/// `BufMut::put_slice` on a `BytesMut`: the bytes of the slice are
/// appended to the buffer, which grows as it must. A buffer does not grow
/// beyond `isize::MAX` bytes.
#[verifier::external_body]
pub(crate) fn bytes_mut_put(buffer: &mut BytesMut, data: &[u8])
    requires
        bytes_mut_contents(*old(buffer)).len() + data@.len() <= isize::MAX,
    ensures
        bytes_mut_contents(*final(buffer)) == bytes_mut_contents(*old(buffer)) + data@,
{
    buffer.put_slice(data)
}

/// `BytesMut::freeze`: the buffer with the same bytes, to be read only.
#[verifier::external_body]
pub(crate) fn bytes_mut_freeze(buffer: BytesMut) -> (r: Bytes)
    ensures
        bytes_contents(r) == bytes_mut_contents(buffer),
{
    buffer.freeze()
}

/// What bytes can be written to, one row after the other.
pub trait ByteSink {
    /// The bytes that were written, in their order.
    spec fn written(&self) -> Seq<u8>;

    /// Appends the bytes of the slice.
    fn put(&mut self, data: &[u8])
        requires
            old(self).written().len() + data@.len() <= isize::MAX,
        ensures
            final(self).written() == old(self).written() + data@,
    ;
}

impl ByteSink for Vec<u8> {
    open spec fn written(&self) -> Seq<u8> {
        self@
    }

    fn put(&mut self, data: &[u8]) {
        let mut i: usize = 0;
        while i < data.len()
            invariant
                i <= data.len(),
                self@ == old(self)@ + data@.subrange(0, i as int),
            decreases data.len() - i,
        {
            self.push(data[i]);
            assert(self@ =~= old(self)@ + data@.subrange(0, i + 1));
            i += 1;
        }
        assert(data@.subrange(0, data@.len() as int) =~= data@);
    }
}

impl ByteSink for BytesMut {
    open spec fn written(&self) -> Seq<u8> {
        bytes_mut_contents(*self)
    }

    fn put(&mut self, data: &[u8]) {
        bytes_mut_put(self, data)
    }
}

} // verus!
