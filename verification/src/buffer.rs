use bytes::BytesMut;
use vstd::prelude::*;

verus! {

/// The growable byte buffer of the `bytes` crate. Nothing of its inside is
/// known here: what it holds goes by `spec_buffered`.
#[verifier::external_type_specification]
#[verifier::external_body]
pub struct ExBytesMut(bytes::BytesMut);

/// The bytes that a buffer holds, first to last.
pub uninterp spec fn spec_buffered(buffer: BytesMut) -> Seq<u8>;

/// `BytesMut::from(&[u8])`: a new buffer that holds a copy of `bytes`.
#[verifier::external_body]
pub(crate) fn buffer_from_slice(bytes: &[u8]) -> (buffer: BytesMut)
    ensures
        spec_buffered(buffer) == bytes@,
{
    BytesMut::from(bytes)
}

/// `AsRef<[u8]>::as_ref` of `BytesMut`: the bytes that the buffer holds, as a
/// slice.
#[verifier::external_body]
pub(crate) fn buffer_as_slice(buffer: &BytesMut) -> (bytes: &[u8])
    ensures
        bytes@ == spec_buffered(*buffer),
{
    buffer.as_ref()
}

/// `BytesMut::split_to`: takes the first `at` bytes out of the buffer and
/// returns them as a buffer of their own; the rest stays. The outside
/// function panics where `at` is beyond the end, so that is left out.
#[verifier::external_body]
pub(crate) fn buffer_split_to(buffer: &mut BytesMut, at: usize) -> (front: BytesMut)
    requires
        at <= spec_buffered(*old(buffer)).len(),
    ensures
        spec_buffered(front) == spec_buffered(*old(buffer)).take(at as int),
        spec_buffered(*final(buffer)) == spec_buffered(*old(buffer)).skip(at as int),
{
    buffer.split_to(at)
}

} // verus!
