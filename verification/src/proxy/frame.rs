//! The datagrams that go to the mirror server.
//!
//! A datagram holds one byte for the source, the time in eight bytes, the low
//! byte first, and the payload.

use prost::bytes::BufMut;
use prost::bytes::Bytes;
use prost::bytes::BytesMut;
use vstd::bytes::spec_u64_from_le_bytes;
use vstd::bytes::spec_u64_to_le_bytes;
use vstd::prelude::*;

verus! {

/// `bytes::BytesMut`, a buffer that grows.
#[verifier::external_type_specification]
#[verifier::external_body]
pub struct ExBytesMut(prost::bytes::BytesMut);

/// `bytes::Bytes`, bytes that no longer change.
#[verifier::external_type_specification]
#[verifier::external_body]
pub struct ExBytes(prost::bytes::Bytes);

/// So many bytes fit into a buffer, with room for it to double twice.
pub open spec fn fits_buffer(len: int) -> bool {
    len <= isize::MAX / 4
}

/// The bytes that a buffer holds.
pub uninterp spec fn buffered(buf: BytesMut) -> Seq<u8>;

/// The bytes of a frozen buffer.
pub uninterp spec fn frozen(bytes: Bytes) -> Seq<u8>;

/// `BytesMut::with_capacity`: the buffer is empty. It panics where no
/// allocation can be that large.
#[verifier::external_body]
fn buffer_with_capacity(capacity: usize) -> (r: BytesMut)
    requires
        fits_buffer(capacity as int),
    ensures
        buffered(r) == Seq::<u8>::empty(),
{
    BytesMut::with_capacity(capacity)
}

/// `BytesMut::reserve`: makes room, and leaves what the buffer holds. It panics
/// where no allocation can be that large.
#[verifier::external_body]
fn reserve(buf: &mut BytesMut, additional: usize)
    requires
        fits_buffer(buffered(*old(buf)).len() + additional),
    ensures
        buffered(*final(buf)) == buffered(*old(buf)),
{
    buf.reserve(additional);
}

/// `BufMut::put_u8` on a `BytesMut`: appends a byte.
#[verifier::external_body]
fn put_u8(buf: &mut BytesMut, n: u8)
    requires
        fits_buffer(buffered(*old(buf)).len() as int + 1),
    ensures
        buffered(*final(buf)) == buffered(*old(buf)).push(n),
{
    buf.put_u8(n);
}

/// `BufMut::put_u64_le` on a `BytesMut`: appends a number in eight bytes, the low
/// byte first.
#[verifier::external_body]
fn put_u64_le(buf: &mut BytesMut, n: u64)
    requires
        fits_buffer(buffered(*old(buf)).len() as int + 8),
    ensures
        buffered(*final(buf)) == buffered(*old(buf)) + spec_u64_to_le_bytes(n),
{
    buf.put_u64_le(n);
}

/// `BufMut::put_slice` on a `BytesMut`: appends bytes.
#[verifier::external_body]
fn put_slice(buf: &mut BytesMut, src: &[u8])
    requires
        fits_buffer(buffered(*old(buf)).len() as int + src@.len()),
    ensures
        buffered(*final(buf)) == buffered(*old(buf)) + src@,
{
    buf.put_slice(src);
}

/// `BytesMut::split`: takes everything out of the buffer.
#[verifier::external_body]
fn split(buf: &mut BytesMut) -> (r: BytesMut)
    ensures
        buffered(r) == buffered(*old(buf)),
        buffered(*final(buf)) == Seq::<u8>::empty(),
{
    buf.split()
}

/// `BytesMut::freeze`: the same bytes, which no longer change.
#[verifier::external_body]
fn freeze(buf: BytesMut) -> (r: Bytes)
    ensures
        frozen(r) == buffered(buf),
{
    buf.freeze()
}

/// The bytes of a datagram.
pub open spec fn frame_bytes(source: u8, nanos: u64, data: Seq<u8>) -> Seq<u8> {
    seq![source] + spec_u64_to_le_bytes(nanos) + data
}

/// The bytes in front of the payload of a datagram.
pub const FRAME_HEADER_LEN: usize = 9;

/// The buffer in which datagrams are put together. It is empty between uses.
pub struct SendBuffer {
    buf: BytesMut,
}

impl SendBuffer {
    /// Nothing is left over from an earlier datagram.
    pub closed spec fn wf(&self) -> bool {
        buffered(self.buf) == Seq::<u8>::empty()
    }

    /// An empty buffer with room for some datagrams.
    pub fn new() -> (r: Self)
        ensures
            r.wf(),
    {
        SendBuffer { buf: buffer_with_capacity(64 * 1024) }
    }

    /// Puts a datagram together.
    pub fn frame(&mut self, source: u8, nanos: u64, data: &[u8]) -> (r: Bytes)
        requires
            old(self).wf(),
            fits_buffer(data@.len() as int + FRAME_HEADER_LEN),
        ensures
            final(self).wf(),
            frozen(r) == frame_bytes(source, nanos, data@),
    {
        proof {
            vstd::bytes::lemma_auto_spec_u64_to_from_le_bytes();
        }
        reserve(&mut self.buf, 1 + 8 + data.len());
        put_u8(&mut self.buf, source);
        put_u64_le(&mut self.buf, nanos);
        put_slice(&mut self.buf, data);
        assert(buffered(self.buf) =~= frame_bytes(source, nanos, data@));
        freeze(split(&mut self.buf))
    }
}

/// A datagram tells its source, its time and its payload apart.
pub proof fn law_frame_is_unambiguous(source: u8, nanos: u64, data: Seq<u8>)
    ensures
        frame_bytes(source, nanos, data).len() == FRAME_HEADER_LEN + data.len(),
        frame_bytes(source, nanos, data)[0] == source,
        spec_u64_from_le_bytes(frame_bytes(source, nanos, data).subrange(1, 9)) == nanos,
        frame_bytes(source, nanos, data).skip(FRAME_HEADER_LEN as int) == data,
{
    vstd::bytes::lemma_auto_spec_u64_to_from_le_bytes();
    let f = frame_bytes(source, nanos, data);
    assert(f.subrange(1, 9) =~= spec_u64_to_le_bytes(nanos));
    assert(f.skip(FRAME_HEADER_LEN as int) =~= data);
}

} // verus!
