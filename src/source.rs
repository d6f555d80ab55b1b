//! The source buffer: a `bytes::BytesMut` holding the text being scanned.
use bytes::BytesMut;
use vstd::prelude::*;
use vstd::utf8::encode_utf8;

verus! {

#[verifier::external_type_specification]
#[verifier::external_body]
pub struct ExBytesMut(BytesMut);

/// The bytes that a `BytesMut` holds, in order.
pub uninterp spec fn buffer_bytes(b: BytesMut) -> Seq<u8>;

/// Relies on `From<&str> for BytesMut`: the buffer holds a copy of the
/// string's UTF-8 bytes.
#[verifier::external_body]
pub(crate) fn buffer_from_str(s: &str) -> (r: BytesMut)
    ensures
        buffer_bytes(r) == encode_utf8(s@),
{
    BytesMut::from(s)
}

/// Relies on `BytesMut::len`: the number of bytes held.
#[verifier::external_body]
pub(crate) fn buffer_len(b: &BytesMut) -> (r: usize)
    ensures
        r == buffer_bytes(*b).len(),
{
    b.len()
}

/// Relies on indexing a `BytesMut` through its `Deref` to `[u8]`: the byte at
/// position `i`.
#[verifier::external_body]
pub(crate) fn buffer_at(b: &BytesMut, i: usize) -> (r: u8)
    requires
        i < buffer_bytes(*b).len(),
    ensures
        r == buffer_bytes(*b)[i as int],
{
    b[i]
}

/// Relies on slicing a `BytesMut` through its `Deref` to `[u8]`: a copy of the
/// bytes in `lo..hi`.
#[verifier::external_body]
pub(crate) fn buffer_slice(b: &BytesMut, lo: usize, hi: usize) -> (r: Vec<u8>)
    requires
        lo <= hi <= buffer_bytes(*b).len(),
    ensures
        r@ == buffer_bytes(*b).subrange(lo as int, hi as int),
{
    b[lo..hi].to_vec()
}

} // verus!
