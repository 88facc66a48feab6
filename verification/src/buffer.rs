//! The byte buffer that a connection reads into, and what the library asks of it.

use vstd::prelude::*;

verus! {

#[verifier::external_type_specification]
#[verifier::external_body]
pub struct ExBytesMut(bytes::BytesMut);

/// The bytes that a buffer holds, front first.
pub uninterp spec fn buffered(buf: bytes::BytesMut) -> Seq<u8>;

/// `Buf::chunk` of `bytes::BytesMut`. A `BytesMut` is contiguous, so its
/// chunk is the whole of what it holds: the contract claims that the slice
/// returned is the buffer's contents.
#[verifier::external_body]
pub(crate) fn buffer_chunk(buf: &bytes::BytesMut) -> (chunk: &[u8])
    ensures
        chunk@ == buffered(*buf),
{
    bytes::Buf::chunk(buf)
}

/// `Buf::advance` of `bytes::BytesMut`, which panics when asked to advance
/// beyond the end. The contract claims that within the buffer it drops the
/// first `count` bytes and keeps the others as they are.
#[verifier::external_body]
pub(crate) fn buffer_advance(buf: &mut bytes::BytesMut, count: usize)
    requires
        count <= buffered(*old(buf)).len(),
    ensures
        buffered(*final(buf)) == buffered(*old(buf)).skip(count as int),
{
    bytes::Buf::advance(buf, count)
}

} // verus!
