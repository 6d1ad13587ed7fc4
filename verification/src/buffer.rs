use vstd::prelude::*;

verus! {

/// The receive buffer of a stream codec is the `bytes` crate's growable byte buffer.
#[verifier::external_type_specification]
#[verifier::external_body]
pub struct ExBytesMut(bytes::BytesMut);

/// The bytes a `BytesMut` currently holds, front first.
pub uninterp spec fn bytes_mut_contents(buf: bytes::BytesMut) -> Seq<u8>;

/// `BytesMut::len`: the number of bytes held.
#[verifier::external_body]
pub(crate) fn buf_len(buf: &bytes::BytesMut) -> (n: usize)
    ensures
        n == bytes_mut_contents(*buf).len(),
{
    buf.len()
}

/// `<BytesMut as AsRef<[u8]>>::as_ref`: the held bytes as a slice.
#[verifier::external_body]
pub(crate) fn buf_bytes(buf: &bytes::BytesMut) -> (s: &[u8])
    ensures
        s@ == bytes_mut_contents(*buf),
{
    buf.as_ref()
}

/// `BytesMut::split_to`: removes the first `at` bytes and returns them in a buffer of their own.
/// The crate panics when `at` exceeds the length, so `requires` leaves that out.
#[verifier::external_body]
pub(crate) fn buf_split_to(buf: &mut bytes::BytesMut, at: usize) -> (front: bytes::BytesMut)
    requires
        at <= bytes_mut_contents(*old(buf)).len(),
    ensures
        bytes_mut_contents(front) == bytes_mut_contents(*old(buf)).take(at as int),
        bytes_mut_contents(*final(buf)) == bytes_mut_contents(*old(buf)).skip(at as int),
{
    buf.split_to(at)
}

/// `<BytesMut as Buf>::advance`: drops the first `cnt` bytes.
/// The crate panics when `cnt` exceeds the length, so `requires` leaves that out.
#[verifier::external_body]
pub(crate) fn buf_advance(buf: &mut bytes::BytesMut, cnt: usize)
    requires
        cnt <= bytes_mut_contents(*old(buf)).len(),
    ensures
        bytes_mut_contents(*final(buf)) == bytes_mut_contents(*old(buf)).skip(cnt as int),
{
    bytes::Buf::advance(buf, cnt)
}

/// `BytesMut::to_vec` (through `Deref<Target = [u8]>`): a copy of the held bytes.
#[verifier::external_body]
pub(crate) fn buf_to_vec(buf: &bytes::BytesMut) -> (v: Vec<u8>)
    ensures
        v@ == bytes_mut_contents(*buf),
{
    buf.to_vec()
}

} // verus!
