//! Plain framing: the length, the packet's number, the payload.

use bytes::BytesMut;
use vstd::prelude::*;

use crate::buffer::{advance, held};
use crate::codec::error::CodecError;
use crate::codec::{body_of, decode_raw_packet, peek_frame, prefix_of, put_varint, reports};
use crate::codec::{lemma_body_whole, lemma_prefix_partial, lemma_prefix_whole};
use crate::codec::{appended, Framed, Outcome, Prefix, Step};
use crate::encoding::{PacketId, Serialize};
use crate::packet::{PacketView, RawPacket};
use crate::varint;

verus! {

/// The codec for frames that are neither compressed nor encrypted.
pub struct UncompressedCodec {
    max_size: usize,
}

/// The frame of a packet: the length of what follows, the packet's number
/// and the payload.
pub open spec fn frame(id: i32, payload: Seq<u8>) -> Seq<u8> {
    varint::encoding((varint::encoding(id).len() + payload.len()) as i32) + varint::encoding(id)
        + payload
}

/// Whether a packet can be framed by a codec with the limit `max_size`: what
/// follows the length must not exceed the limit, nor what a length field can
/// hold.
pub open spec fn fits(id: i32, payload: Seq<u8>, max_size: usize) -> bool {
    varint::encoding(id).len() + payload.len() <= max_size && varint::encoding(id).len()
        + payload.len() <= i32::MAX
}

/// What framing a packet comes to under the limit `max_size`.
pub open spec fn framed(id: i32, payload: Seq<u8>, max_size: usize) -> Framed {
    if fits(id, payload, max_size) {
        Framed::Frame(frame(id, payload))
    } else {
        Framed::Size
    }
}

/// What decoding makes of the buffer `buf` under the limit `max_size`.
pub open spec fn step(buf: Seq<u8>, max_size: usize) -> Step {
    match prefix_of(buf, max_size) {
        Prefix::NeedMore => Step { outcome: Outcome::NeedMore, rest: buf },
        Prefix::Varint(e) => Step { outcome: Outcome::Varint(e), rest: buf },
        Prefix::Size => Step { outcome: Outcome::Size, rest: buf },
        Prefix::Frame { prefix, len } => body_of(buf.skip(prefix as int), len),
    }
}

/// Decoding undoes encoding: a frame that was written for a packet, with
/// whatever follows it in the buffer, is read as that packet, and what
/// followed is what stays. The codec must be willing to read the length,
/// which has to be below its limit.
pub proof fn lemma_round_trip(id: i32, payload: Seq<u8>, rest: Seq<u8>, max_size: usize)
    requires
        fits(id, payload, max_size),
        varint::encoding(id).len() + payload.len() < max_size,
    ensures
        step(frame(id, payload) + rest, max_size) == (Step {
            outcome: Outcome::Packet(PacketView { id, data: payload }),
            rest,
        }),
{
    let size = (varint::encoding(id).len() + payload.len()) as i32;
    let body = varint::encoding(id) + payload;
    varint::lemma_encoding_len(id);
    assert(frame(id, payload) + rest =~= varint::encoding(size) + body + rest);
    lemma_prefix_whole(size, body, rest, max_size);
    lemma_body_whole(id, payload, rest);
}

/// A frame of which only a part has arrived is left alone: decoding any
/// proper prefix of a frame asks for more bytes and keeps the ones that are
/// there, however often it is tried.
pub proof fn lemma_partial_frame(id: i32, payload: Seq<u8>, max_size: usize, k: nat)
    requires
        fits(id, payload, max_size),
        varint::encoding(id).len() + payload.len() < max_size,
        k < frame(id, payload).len(),
    ensures
        step(frame(id, payload).take(k as int), max_size) == (Step {
            outcome: Outcome::NeedMore,
            rest: frame(id, payload).take(k as int),
        }),
{
    let size = (varint::encoding(id).len() + payload.len()) as i32;
    let body = varint::encoding(id) + payload;
    varint::lemma_encoding_len(id);
    assert(frame(id, payload) =~= varint::encoding(size) + body);
    lemma_prefix_partial(size, body, max_size, k);
}

/// A length of zero is never accepted, whatever the limit.
pub proof fn lemma_zero_length_rejected(buf: Seq<u8>, max_size: usize)
    requires
        varint::decoding(buf) matches Ok((_, len)) && len == 0,
    ensures
        step(buf, max_size) == (Step { outcome: Outcome::Size, rest: buf }),
{
}

impl Default for UncompressedCodec {
    /// A codec without a limit of its own: the length field bounds the frame.
    fn default() -> (codec: Self)
        ensures
            codec.limit() == usize::MAX,
    {
        UncompressedCodec { max_size: usize::MAX }
    }
}

impl UncompressedCodec {
    /// The limit of the codec: it reads only frames whose length is below it
    /// and writes only frames whose length is not above it.
    pub closed spec fn limit(&self) -> usize {
        self.max_size
    }

    /// Sets the limit on the length of a frame.
    pub fn max_size(self, max_size: usize) -> (codec: Self)
        ensures
            codec.limit() == max_size,
    {
        UncompressedCodec { max_size }
    }

    /// Takes one frame from the front of `src`, if a whole one is there.
    ///
    /// Where the frame is not all there yet, `src` keeps its bytes and the
    /// result is `Ok(None)`: the call can be repeated once more bytes have
    /// come. A whole frame leaves `src` in one go.
    pub fn decode(&self, src: &mut BytesMut) -> (r: Result<Option<RawPacket>, CodecError>)
        ensures
            reports(r, step(held(*old(src)), self.limit()).outcome),
            held(*final(src)) == step(held(*old(src)), self.limit()).rest,
    {
        let (prefix, len) = match peek_frame(src, self.max_size) {
            Err(e) => return Err(e),
            Ok(None) => return Ok(None),
            Ok(Some(found)) => found,
        };
        advance(src, prefix);
        match decode_raw_packet(src, len) {
            Ok(packet) => Ok(Some(packet)),
            Err(e) => Err(e),
        }
    }

    /// Appends the frame of `item` to `dst`.
    pub fn encode(&self, item: &RawPacket, dst: &mut BytesMut) -> (r: Result<(), CodecError>)
        ensures
            appended(
                r,
                held(*old(dst)),
                held(*final(dst)),
                framed(item@.id, item@.data, self.limit()),
            ),
    {
        self.write_frame(item.packet_id, item, dst)
    }

    /// Appends the frame of the packet `data` to `dst`, without making a raw
    /// packet of it first.
    pub fn encode_packet<T: Serialize + PacketId>(&self, data: &T, dst: &mut BytesMut) -> (r:
        Result<(), CodecError>)
        ensures
            appended(
                r,
                held(*old(dst)),
                held(*final(dst)),
                framed(T::packet_id(), data.wire(), self.limit()),
            ),
    {
        self.write_frame(T::id(), data, dst)
    }

    /// Appends the frame of a packet with the number `id` and the bytes of
    /// `payload`.
    fn write_frame<T: Serialize>(&self, id: i32, payload: &T, dst: &mut BytesMut) -> (r: Result<
        (),
        CodecError,
    >)
        ensures
            appended(
                r,
                held(*old(dst)),
                held(*final(dst)),
                framed(id, payload.wire(), self.limit()),
            ),
    {
        let size = match varint::size(id).checked_add(payload.size()) {
            Some(size) => size,
            None => return Err(CodecError::Size),
        };
        if size > self.max_size || size > i32::MAX as usize {
            return Err(CodecError::Size);
        }
        put_varint(dst, size as i32);
        put_varint(dst, id);
        payload.serialize(dst);
        assert(held(*dst) =~= held(*old(dst)) + frame(id, payload.wire()));
        Ok(())
    }
}

} // verus!
