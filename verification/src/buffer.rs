//! The byte buffers of the `bytes` crate, as the codecs use them.
//!
//! `BytesMut` is the growable buffer that frames are cut out of and appended
//! to; `Bytes` is the shared, immutable buffer that a packet's payload lives
//! in. Nothing here is proved: each function states what the `bytes` crate
//! documents of the call that it makes.

use bytes::{Buf, Bytes, BytesMut};
use vstd::prelude::*;

verus! {

/// `bytes::BytesMut`, of which only the contents matter here.
#[verifier::external_type_specification]
#[verifier::external_body]
pub struct ExBytesMut(bytes::BytesMut);

/// `bytes::Bytes`, of which only the contents matter here.
#[verifier::external_type_specification]
#[verifier::external_body]
pub struct ExBytes(bytes::Bytes);

/// The bytes that a `BytesMut` holds, from its first readable byte to its
/// last. Spare capacity is no part of them.
pub uninterp spec fn held(buf: BytesMut) -> Seq<u8>;

/// The bytes that a `Bytes` holds.
pub uninterp spec fn shared(data: Bytes) -> Seq<u8>;

/// `Bytes::clone`: another handle to the same bytes.
pub assume_specification[ <bytes::Bytes as Clone>::clone ](data: &Bytes) -> (other: Bytes)
    ensures
        shared(other) == shared(*data),
;

/// `BytesMut::as_ref`: the contents as a slice.
#[verifier::external_body]
pub(crate) fn as_slice(buf: &BytesMut) -> (s: &[u8])
    ensures
        s@ == held(*buf),
{
    buf.as_ref()
}

/// `Bytes::as_ref`: the contents as a slice.
#[verifier::external_body]
pub(crate) fn shared_slice(data: &Bytes) -> (s: &[u8])
    ensures
        s@ == shared(*data),
{
    data.as_ref()
}

/// `BytesMut::with_capacity`: a buffer that holds nothing, whatever room it
/// has. The `Vec` behind it panics for more than `isize::MAX` bytes, which
/// `requires` leaves out.
#[verifier::external_body]
pub(crate) fn with_capacity(capacity: usize) -> (buf: BytesMut)
    requires
        capacity <= isize::MAX,
    ensures
        held(buf) == Seq::<u8>::empty(),
{
    BytesMut::with_capacity(capacity)
}

/// `BytesMut::clear`: the buffer holds nothing afterwards.
#[verifier::external_body]
pub(crate) fn clear(buf: &mut BytesMut)
    ensures
        held(*final(buf)) == Seq::<u8>::empty(),
{
    buf.clear()
}

/// `Buf::advance` on a `BytesMut`: the first `count` bytes are dropped. It
/// panics past the end, which `requires` leaves out.
#[verifier::external_body]
pub(crate) fn advance(buf: &mut BytesMut, count: usize)
    requires
        count <= held(*old(buf)).len(),
    ensures
        held(*final(buf)) == held(*old(buf)).skip(count as int),
{
    buf.advance(count)
}

/// `BytesMut::split_to`: the first `at` bytes leave the buffer as a buffer of
/// their own, and the buffer keeps the rest. It panics past the end, which
/// `requires` leaves out.
#[verifier::external_body]
pub(crate) fn split_to(buf: &mut BytesMut, at: usize) -> (head: BytesMut)
    requires
        at <= held(*old(buf)).len(),
    ensures
        held(head) == held(*old(buf)).take(at as int),
        held(*final(buf)) == held(*old(buf)).skip(at as int),
{
    buf.split_to(at)
}

/// `BytesMut::freeze`: the same bytes, from now on immutable and shared.
#[verifier::external_body]
pub(crate) fn freeze(buf: BytesMut) -> (data: Bytes)
    ensures
        shared(data) == held(buf),
{
    buf.freeze()
}

/// `BytesMut::reserve`: room is made for `additional` more bytes and the
/// contents stay. It panics where the new capacity overflows, which
/// `requires` leaves out.
#[verifier::external_body]
pub(crate) fn reserve(buf: &mut BytesMut, additional: usize)
    requires
        held(*old(buf)).len() + additional <= isize::MAX,
    ensures
        held(*final(buf)) == held(*old(buf)),
{
    buf.reserve(additional)
}

/// `BytesMut::extend_from_slice`: `bytes` are appended. As with `Vec`, the
/// call gives up only where memory does.
#[verifier::external_body]
pub(crate) fn extend_from_slice(buf: &mut BytesMut, bytes: &[u8])
    ensures
        held(*final(buf)) == held(*old(buf)) + bytes@,
{
    buf.extend_from_slice(bytes)
}

} // verus!
