//! What this library relies on from the byte buffer that message framing
//! reads from and writes to.
//!
//! The buffer is `tokio_util::bytes::BytesMut`. Nothing in this file is
//! proved: each contract states what the buffer's own source shows of one
//! of its methods, and the framing is verified against these contracts.
//! Growing a buffer allocates, and no buffer holds more than `isize::MAX`
//! bytes: the preconditions keep the content within that. As for `Vec`, an
//! allocation that the machine cannot serve is outside what the contracts
//! speak of.

use tokio_util::bytes::{Buf, BufMut, BytesMut};
use vstd::prelude::*;

verus! {

/// `tokio_util::bytes::BytesMut`, a growable buffer of bytes that is read
/// from its front. Nothing of its inside is known here but through
/// `spec_bytes`.
#[verifier::external_type_specification]
#[verifier::external_body]
pub struct ExBytesMut(BytesMut);

/// The bytes a buffer holds, the next one to be read first.
pub uninterp spec fn spec_bytes(buf: BytesMut) -> Seq<u8>;

/// `<BytesMut as AsRef<[u8]>>::as_ref`: the buffer seen as a slice. The
/// slice is the buffer's content, from the first byte to the last.
#[verifier::external_body]
pub(crate) fn buffer_as_slice(buf: &BytesMut) -> (bytes: &[u8])
    ensures
        bytes@ == spec_bytes(*buf),
{
    buf.as_ref()
}

/// `<BytesMut as Buf>::advance`: drops the first `count` bytes and keeps
/// the rest. It panics when asked to drop more than the buffer holds, which
/// the precondition rules out.
#[verifier::external_body]
pub(crate) fn buffer_advance(buf: &mut BytesMut, count: usize)
    requires
        count <= spec_bytes(*old(buf)).len(),
    ensures
        spec_bytes(*final(buf)) == spec_bytes(*old(buf)).skip(count as int),
{
    buf.advance(count)
}

/// `BytesMut::reserve`: makes room for `additional` more bytes and leaves
/// the content as it is. It panics when the capacity asked for overflows,
/// which the precondition rules out.
#[verifier::external_body]
pub(crate) fn buffer_reserve(buf: &mut BytesMut, additional: usize)
    requires
        spec_bytes(*old(buf)).len() + additional <= isize::MAX,
    ensures
        spec_bytes(*final(buf)) == spec_bytes(*old(buf)),
{
    buf.reserve(additional)
}

/// `BytesMut::extend_from_slice`: appends `extend` to the content, after
/// growing the buffer as `reserve` does, with the same panic.
#[verifier::external_body]
pub(crate) fn buffer_extend_from_slice(buf: &mut BytesMut, extend: &[u8])
    requires
        spec_bytes(*old(buf)).len() + extend@.len() <= isize::MAX,
    ensures
        spec_bytes(*final(buf)) == spec_bytes(*old(buf)) + extend@,
{
    buf.extend_from_slice(extend)
}

/// `<BytesMut as BufMut>::put_u8`: appends one byte to the content, by
/// way of `extend_from_slice`.
#[verifier::external_body]
pub(crate) fn buffer_put_u8(buf: &mut BytesMut, byte: u8)
    requires
        spec_bytes(*old(buf)).len() + 1 <= isize::MAX,
    ensures
        spec_bytes(*final(buf)) == spec_bytes(*old(buf)).push(byte),
{
    buf.put_u8(byte)
}

} // verus!
