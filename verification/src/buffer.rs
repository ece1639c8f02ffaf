//! Reference-counted packet buffers.
//!
//! Packets travel through the tunnel in the buffers of the `bytes` crate.
//! The items below are believed rather than proved: they state, over the
//! bytes that a buffer holds, what the methods used by this library do.

use vstd::prelude::*;

use bytes::{BufMut, Bytes, BytesMut};

verus! {

/// The immutable, cheaply cloneable buffer `bytes::Bytes`.
#[verifier::external_type_specification]
#[verifier::external_body]
pub struct ExBytes(bytes::Bytes);

/// The growable buffer `bytes::BytesMut`.
#[verifier::external_type_specification]
#[verifier::external_body]
pub struct ExBytesMut(bytes::BytesMut);

/// The bytes held by an immutable buffer.
pub uninterp spec fn bytes_view(b: bytes::Bytes) -> Seq<u8>;

/// The bytes held by a growable buffer.
pub uninterp spec fn bytes_mut_view(b: bytes::BytesMut) -> Seq<u8>;

/// The contents of every buffer of a sequence.
pub open spec fn views(items: Seq<Bytes>) -> Seq<Seq<u8>> {
    items.map_values(|b: Bytes| bytes_view(b))
}

/// `Bytes::new` gives a buffer that holds nothing.
pub assume_specification[ bytes::Bytes::new ]() -> (b: bytes::Bytes)
    ensures
        bytes_view(b) == Seq::<u8>::empty(),
;

/// `Bytes::len` is the number of bytes held.
pub assume_specification[ bytes::Bytes::len ](b: &bytes::Bytes) -> (n: usize)
    ensures
        n == bytes_view(*b).len(),
;

/// `Bytes::is_empty` tells whether nothing is held.
pub assume_specification[ bytes::Bytes::is_empty ](b: &bytes::Bytes) -> (r: bool)
    ensures
        r == (bytes_view(*b).len() == 0),
;

/// `Bytes::as_ref` borrows all the bytes held.
#[verifier::external_body]
pub(crate) fn bytes_as_slice(b: &Bytes) -> (s: &[u8])
    ensures
        s@ == bytes_view(*b),
{
    b.as_ref()
}

/// `Bytes::slice` gives a handle on the bytes `start..end`. It panics when
/// the range does not lie inside the buffer.
#[verifier::external_body]
pub(crate) fn bytes_slice(b: &Bytes, start: usize, end: usize) -> (r: Bytes)
    requires
        start <= end <= bytes_view(*b).len(),
    ensures
        bytes_view(r) == bytes_view(*b).subrange(start as int, end as int),
{
    b.slice(start..end)
}

/// `BytesMut::new` gives a buffer that holds nothing.
pub assume_specification[ bytes::BytesMut::new ]() -> (b: bytes::BytesMut)
    ensures
        bytes_mut_view(b) == Seq::<u8>::empty(),
;

/// `BytesMut::with_capacity` gives a buffer that holds nothing. It panics
/// when the capacity is more than an allocation can have.
pub assume_specification[ bytes::BytesMut::with_capacity ](capacity: usize) -> (b: bytes::BytesMut)
    requires
        capacity <= isize::MAX,
    ensures
        bytes_mut_view(b) == Seq::<u8>::empty(),
;

/// `BytesMut::len` is the number of bytes held.
pub assume_specification[ bytes::BytesMut::len ](b: &bytes::BytesMut) -> (n: usize)
    ensures
        n == bytes_mut_view(*b).len(),
;

/// `BytesMut::clear` drops all the bytes held.
pub assume_specification[ bytes::BytesMut::clear ](b: &mut bytes::BytesMut)
    ensures
        bytes_mut_view(*final(b)) == Seq::<u8>::empty(),
;

/// `BytesMut::reserve` makes room without touching the bytes held. It panics
/// when the room asked for is more than an allocation can have.
pub assume_specification[ bytes::BytesMut::reserve ](b: &mut bytes::BytesMut, additional: usize)
    requires
        bytes_mut_view(*old(b)).len() + additional <= isize::MAX,
    ensures
        bytes_mut_view(*final(b)) == bytes_mut_view(*old(b)),
;

/// `BytesMut::extend_from_slice` appends the slice. It panics when the result
/// is more than an allocation can have.
pub assume_specification[ bytes::BytesMut::extend_from_slice ](
    b: &mut bytes::BytesMut,
    extend: &[u8],
)
    requires
        bytes_mut_view(*old(b)).len() + extend@.len() <= isize::MAX,
    ensures
        bytes_mut_view(*final(b)) == bytes_mut_view(*old(b)) + extend@,
;

/// `BytesMut::split` moves all the bytes held into a new buffer.
pub assume_specification[ bytes::BytesMut::split ](b: &mut bytes::BytesMut) -> (r: bytes::BytesMut)
    ensures
        bytes_mut_view(r) == bytes_mut_view(*old(b)),
        bytes_mut_view(*final(b)) == Seq::<u8>::empty(),
;

/// `BytesMut::freeze` turns a growable buffer into an immutable one.
pub assume_specification[ bytes::BytesMut::freeze ](b: bytes::BytesMut) -> (r: bytes::Bytes)
    ensures
        bytes_view(r) == bytes_mut_view(b),
;

/// `BufMut::put_u8` appends one byte. It panics when the result is more than
/// an allocation can have.
#[verifier::external_body]
pub(crate) fn put_u8(out: &mut BytesMut, byte: u8)
    requires
        bytes_mut_view(*old(out)).len() < isize::MAX,
    ensures
        bytes_mut_view(*final(out)) == bytes_mut_view(*old(out)).push(byte),
{
    out.put_u8(byte)
}

/// `BytesMut::as_mut` lends all the bytes held for writing.
#[verifier::external_body]
pub(crate) fn bytes_mut_as_slice(b: &mut BytesMut) -> (s: &mut [u8])
    ensures
        s@ == bytes_mut_view(*old(b)),
        bytes_mut_view(*final(b)) == final(s)@,
{
    b.as_mut()
}

/// Buffers are told by their bytes, in their order.
pub proof fn law_buffers_are_told(items: Seq<Bytes>, i: int)
    ensures
        views(items).len() == items.len(),
        0 <= i < items.len() ==> views(items)[i] == bytes_view(items[i]),
{
}

} // verus!
