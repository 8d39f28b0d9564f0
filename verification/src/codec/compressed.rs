//! Compressed framing: the length, the size of the inflated body, the body.
//!
//! A body below the codec's threshold travels as it is, behind a size of
//! zero. A body at or above the threshold travels as a zlib stream, behind
//! the size that it inflates to.

use bytes::BytesMut;
use vstd::prelude::*;
use vstd::slice::slice_subrange;

use crate::buffer::{advance, as_slice, clear, extend_from_slice, held, reserve, with_capacity};
use crate::codec::error::CodecError;
use crate::codec::{body_of, decode_raw_packet, peek_frame, prefix_of, put_varint, reports};
use crate::codec::{appended, Framed, Outcome, Prefix, Step};
use crate::encoding::{PacketId, Serialize};
use crate::codec::{lemma_body_whole, lemma_prefix_partial, lemma_prefix_whole};
use crate::packet::{PacketView, RawPacket};
use crate::varint;
use crate::zlib::{deflate, deflated, inflate, inflated};

verus! {

/// The codec for frames whose body may be a zlib stream.
pub struct CompressedCodec {
    /// Bodies of at least this size are compressed.
    compression_threshold: usize,
    /// Only lengths below this are accepted from the other side.
    max_size: usize,
    /// Holds the zlib stream of the frame that is being written.
    compressed_buffer: Vec<u8>,
    /// Holds the body of the frame that is being written, before it is
    /// compressed.
    uncompressed_buffer: BytesMut,
}

/// The threshold of a codec that was given none.
pub const DEFAULT_THRESHOLD: usize = 256;

/// A frame whose body travels as it is: the length of what follows, a zero,
/// the packet's number and the payload.
pub open spec fn literal_frame(id: i32, payload: Seq<u8>) -> Seq<u8> {
    varint::encoding((1 + varint::encoding(id).len() + payload.len()) as i32) + varint::encoding(0)
        + varint::encoding(id) + payload
}

/// A frame whose body travels as the zlib stream `stream`: the length of what
/// follows, the size `data_length` of the inflated body, and the stream.
pub open spec fn deflated_frame(data_length: i32, stream: Seq<u8>) -> Seq<u8> {
    varint::encoding((varint::encoding(data_length).len() + stream.len()) as i32)
        + varint::encoding(data_length) + stream
}

/// What framing the zlib stream `stream` of a body of `data_length` bytes
/// comes to.
pub open spec fn framed_stream(data_length: i32, stream: Seq<u8>) -> Framed {
    if varint::encoding(data_length).len() + stream.len() > i32::MAX {
        Framed::Size
    } else {
        Framed::Frame(deflated_frame(data_length, stream))
    }
}

/// What framing a packet comes to under the threshold `threshold`.
pub open spec fn framed(id: i32, payload: Seq<u8>, threshold: usize) -> Framed {
    let size = varint::encoding(id).len() + payload.len();
    if size >= threshold {
        if size > i32::MAX {
            Framed::Size
        } else {
            match deflated(varint::encoding(id) + payload) {
                None => Framed::Io,
                Some(stream) => framed_stream(size as i32, stream),
            }
        }
    } else if 1 + size > i32::MAX {
        Framed::Size
    } else {
        Framed::Frame(literal_frame(id, payload))
    }
}

/// What a body that was inflated from `stream` holds, where the frame says
/// that it inflates to `data_length` bytes.
pub open spec fn unpacked(stream: Seq<u8>, data_length: nat) -> Outcome {
    match inflated(stream) {
        None => Outcome::Io,
        Some(data) => body_of(data, data_length).outcome,
    }
}

/// What decoding makes of a frame of `len` bytes at the front of `buf`, its
/// length prefix already taken away.
pub open spec fn inner_step(buf: Seq<u8>, len: nat, max_size: usize) -> Step {
    match varint::decoding(buf) {
        Err(e) => Step { outcome: Outcome::Varint(e), rest: buf },
        Ok((n, data_length)) => {
            let after = buf.skip(n as int);
            if data_length < 0 || data_length >= max_size || n > len {
                Step { outcome: Outcome::Size, rest: after }
            } else if data_length == 0 {
                body_of(after, (len - n) as nat)
            } else {
                Step {
                    outcome: unpacked(after.take(len - n), data_length as nat),
                    rest: after.skip(len - n),
                }
            }
        },
    }
}

/// What decoding makes of the buffer `buf` under the limit `max_size`.
pub open spec fn step(buf: Seq<u8>, max_size: usize) -> Step {
    match prefix_of(buf, max_size) {
        Prefix::NeedMore => Step { outcome: Outcome::NeedMore, rest: buf },
        Prefix::Varint(e) => Step { outcome: Outcome::Varint(e), rest: buf },
        Prefix::Size => Step { outcome: Outcome::Size, rest: buf },
        Prefix::Frame { prefix, len } => inner_step(buf.skip(prefix as int), len, max_size),
    }
}

/// Decoding undoes encoding for a body that travels as it is: the frame, with
/// whatever follows it in the buffer, is read as the packet it was written
/// for, and what followed is what stays. The codec must be willing to read
/// the length, which has to be below its limit.
pub proof fn lemma_round_trip_literal(
    id: i32,
    payload: Seq<u8>,
    rest: Seq<u8>,
    threshold: usize,
    max_size: usize,
)
    requires
        varint::encoding(id).len() + payload.len() < threshold,
        1 + varint::encoding(id).len() + payload.len() <= i32::MAX,
        1 + varint::encoding(id).len() + payload.len() < max_size,
    ensures
        framed(id, payload, threshold) == Framed::Frame(literal_frame(id, payload)),
        step(literal_frame(id, payload) + rest, max_size) == (Step {
            outcome: Outcome::Packet(PacketView { id, data: payload }),
            rest,
        }),
{
    let len = (1 + varint::encoding(id).len() + payload.len()) as i32;
    let body = varint::encoding(0) + varint::encoding(id) + payload;
    varint::lemma_encoding_len(id);
    varint::lemma_encoding_len(0);
    assert(literal_frame(id, payload) + rest =~= varint::encoding(len) + body + rest);
    lemma_prefix_whole(len, body, rest, max_size);
    let inner = body + rest;
    varint::lemma_read_write(0, varint::encoding(id) + payload + rest);
    assert(inner.skip(1) =~= varint::encoding(id) + payload + rest);
    lemma_body_whole(id, payload, rest);
}

/// Decoding undoes encoding for a body that travels compressed, as far as
/// inflating undoes deflating. Where the body deflates to `stream`, the
/// encoder writes the frame of `stream`. Where `stream` inflates to the body
/// again, that frame, with whatever follows it in the buffer, is read as the
/// packet it was written for, and what followed is what stays. The codec must
/// be willing to read the frame's length and the body's size, which have to
/// be below its limit.
pub proof fn lemma_round_trip_deflated(
    id: i32,
    payload: Seq<u8>,
    stream: Seq<u8>,
    rest: Seq<u8>,
    threshold: usize,
    max_size: usize,
)
    requires
        threshold <= varint::encoding(id).len() + payload.len() <= i32::MAX,
        varint::encoding(id).len() + payload.len() < max_size,
        varint::encoding((varint::encoding(id).len() + payload.len()) as i32).len() + stream.len()
            <= i32::MAX,
        varint::encoding((varint::encoding(id).len() + payload.len()) as i32).len() + stream.len()
            < max_size,
    ensures
        deflated(varint::encoding(id) + payload) == Some(stream) ==> framed(id, payload, threshold)
            == Framed::Frame(
            deflated_frame((varint::encoding(id).len() + payload.len()) as i32, stream),
        ),
        inflated(stream) == Some(varint::encoding(id) + payload) ==> step(
            deflated_frame((varint::encoding(id).len() + payload.len()) as i32, stream) + rest,
            max_size,
        ) == (Step { outcome: Outcome::Packet(PacketView { id, data: payload }), rest }),
{
    let size = (varint::encoding(id).len() + payload.len()) as i32;
    let len = (varint::encoding(size).len() + stream.len()) as i32;
    let body = varint::encoding(size) + stream;
    varint::lemma_encoding_len(id);
    varint::lemma_encoding_len(size);
    assert(deflated_frame(size, stream) + rest =~= varint::encoding(len) + body + rest);
    lemma_prefix_whole(len, body, rest, max_size);
    assert(body + rest =~= varint::encoding(size) + (stream + rest));
    varint::lemma_read_write(size, stream + rest);
    let after = (body + rest).skip(varint::encoding(size).len() as int);
    assert(after.take(stream.len() as int) =~= stream);
    assert(after.skip(stream.len() as int) =~= rest);
    lemma_body_whole(id, payload, Seq::<u8>::empty());
}

/// A frame of which only a part has arrived is left alone: decoding any
/// proper prefix of a frame with a literal body asks for more bytes and keeps
/// the ones that are there, however often it is tried.
pub proof fn lemma_partial_literal(id: i32, payload: Seq<u8>, max_size: usize, k: nat)
    requires
        1 + varint::encoding(id).len() + payload.len() <= i32::MAX,
        1 + varint::encoding(id).len() + payload.len() < max_size,
        k < literal_frame(id, payload).len(),
    ensures
        step(literal_frame(id, payload).take(k as int), max_size) == (Step {
            outcome: Outcome::NeedMore,
            rest: literal_frame(id, payload).take(k as int),
        }),
{
    let len = (1 + varint::encoding(id).len() + payload.len()) as i32;
    let body = varint::encoding(0) + varint::encoding(id) + payload;
    varint::lemma_encoding_len(id);
    varint::lemma_encoding_len(0);
    assert(literal_frame(id, payload) =~= varint::encoding(len) + body);
    lemma_prefix_partial(len, body, max_size, k);
}

/// The same for a frame with a compressed body: any proper prefix of it asks
/// for more bytes and keeps the ones that are there.
pub proof fn lemma_partial_deflated(data_length: i32, stream: Seq<u8>, max_size: usize, k: nat)
    requires
        varint::encoding(data_length).len() + stream.len() <= i32::MAX,
        varint::encoding(data_length).len() + stream.len() < max_size,
        k < deflated_frame(data_length, stream).len(),
    ensures
        step(deflated_frame(data_length, stream).take(k as int), max_size) == (Step {
            outcome: Outcome::NeedMore,
            rest: deflated_frame(data_length, stream).take(k as int),
        }),
{
    let len = (varint::encoding(data_length).len() + stream.len()) as i32;
    let body = varint::encoding(data_length) + stream;
    varint::lemma_encoding_len(data_length);
    assert(deflated_frame(data_length, stream) =~= varint::encoding(len) + body);
    lemma_prefix_partial(len, body, max_size, k);
}

/// The threshold is the first size that is compressed: a body of exactly the
/// threshold's size travels as a zlib stream behind its size, and a body one
/// byte smaller travels as it is, behind a zero.
pub proof fn lemma_threshold_boundary(id: i32, payload: Seq<u8>, threshold: usize)
    requires
        varint::encoding(id).len() + payload.len() < i32::MAX,
    ensures
        varint::encoding(id).len() + payload.len() == threshold ==> framed(id, payload, threshold)
            == match deflated(varint::encoding(id) + payload) {
            None => Framed::Io,
            Some(stream) => framed_stream(threshold as i32, stream),
        },
        varint::encoding(id).len() + payload.len() + 1 == threshold ==> framed(
            id,
            payload,
            threshold,
        ) == Framed::Frame(literal_frame(id, payload)),
{
}

/// What an encoder appends depends on the packet and on the threshold, and on
/// nothing that the encoder has framed before: two encoders with the same
/// threshold that are given the same packet and start from the same bytes end
/// with the same bytes, and fail or succeed alike.
pub proof fn lemma_encode_stable(
    first: CompressedCodec,
    second: CompressedCodec,
    id: i32,
    payload: Seq<u8>,
    before: Seq<u8>,
    r1: Result<(), CodecError>,
    after1: Seq<u8>,
    r2: Result<(), CodecError>,
    after2: Seq<u8>,
)
    requires
        first.threshold() == second.threshold(),
        appended(r1, before, after1, framed(id, payload, first.threshold())),
        appended(r2, before, after2, framed(id, payload, second.threshold())),
    ensures
        after1 == after2,
        r1 is Ok <==> r2 is Ok,
        r1 matches Err(CodecError::Size) <==> r2 matches Err(CodecError::Size),
        r1 matches Err(CodecError::Io(_)) <==> r2 matches Err(CodecError::Io(_)),
{
}

/// A frame whose length is zero, or whose body claims a size that is
/// negative or not below the limit, is rejected for its size.
pub proof fn lemma_sizes_rejected(buf: Seq<u8>, len: nat, max_size: usize)
    ensures
        varint::decoding(buf) matches Ok((_, outer)) && outer == 0 ==> step(buf, max_size).outcome
            == Outcome::Size,
        varint::decoding(buf) matches Ok((_, data_length)) && (data_length < 0 || data_length
            >= max_size) ==> inner_step(buf, len, max_size).outcome == Outcome::Size,
{
}

/// Appends the frame of a body that was compressed to `stream` and that
/// inflates to `data_length` bytes.
pub fn frame_deflated(data_length: i32, stream: &[u8], dst: &mut BytesMut) -> (r: Result<
    (),
    CodecError,
>)
    ensures
        appended(r, held(*old(dst)), held(*final(dst)), framed_stream(data_length, stream@)),
{
    let packet_length = match varint::size(data_length).checked_add(stream.len()) {
        Some(length) => length,
        None => return Err(CodecError::Size),
    };
    if packet_length > i32::MAX as usize {
        return Err(CodecError::Size);
    }
    put_varint(dst, packet_length as i32);
    put_varint(dst, data_length);
    extend_from_slice(dst, stream);
    assert(held(*dst) =~= held(*old(dst)) + deflated_frame(data_length, stream@));
    Ok(())
}

impl Default for CompressedCodec {
    /// A codec that compresses bodies of 256 bytes and more and has no limit
    /// of its own on what it reads.
    fn default() -> (codec: Self)
        ensures
            codec.threshold() == DEFAULT_THRESHOLD,
            codec.limit() == usize::MAX,
    {
        CompressedCodec {
            compression_threshold: DEFAULT_THRESHOLD,
            max_size: usize::MAX,
            compressed_buffer: Vec::new(),
            uncompressed_buffer: with_capacity(0),
        }
    }
}

impl CompressedCodec {
    /// The size from which on a body is compressed.
    pub closed spec fn threshold(&self) -> usize {
        self.compression_threshold
    }

    /// The limit of the codec: it reads only frames whose length, and whose
    /// inflated size, is below it.
    pub closed spec fn limit(&self) -> usize {
        self.max_size
    }

    /// Sets the size from which on a body is compressed.
    pub fn compression(self, threshold: usize) -> (codec: Self)
        ensures
            codec.threshold() == threshold,
            codec.limit() == self.limit(),
    {
        CompressedCodec {
            compression_threshold: threshold,
            max_size: self.max_size,
            compressed_buffer: self.compressed_buffer,
            uncompressed_buffer: self.uncompressed_buffer,
        }
    }

    /// Sets the limit on what the codec reads.
    pub fn max_size(self, max_size: usize) -> (codec: Self)
        ensures
            codec.limit() == max_size,
            codec.threshold() == self.threshold(),
    {
        CompressedCodec {
            compression_threshold: self.compression_threshold,
            max_size,
            compressed_buffer: self.compressed_buffer,
            uncompressed_buffer: self.uncompressed_buffer,
        }
    }

    /// Sets the size from which on a body is compressed, in place.
    pub fn set_compression(&mut self, treshold: usize)
        ensures
            final(self).threshold() == treshold,
            final(self).limit() == old(self).limit(),
    {
        self.compression_threshold = treshold
    }

    /// The size from which on a body is compressed.
    pub fn compression_treshold(&self) -> (threshold: usize)
        ensures
            threshold == self.threshold(),
    {
        self.compression_threshold
    }

    /// Takes one frame from the front of `src`, if a whole one is there.
    ///
    /// Where the frame is not all there yet, `src` keeps its bytes and the
    /// result is `Ok(None)`: the call can be repeated once more bytes have
    /// come. A whole frame leaves `src` in one go, and a body that does not
    /// inflate is an error, since nothing of it is missing.
    pub fn decode(&self, src: &mut BytesMut) -> (r: Result<Option<RawPacket>, CodecError>)
        ensures
            reports(r, step(held(*old(src)), self.limit()).outcome),
            held(*final(src)) == step(held(*old(src)), self.limit()).rest,
    {
        let (prefix, len) = match peek_frame(src, self.max_size) {
            Err(e) => return Err(e),
            Ok(None) => return Ok(None),
            Ok(Some(found)) => found,
        };
        advance(src, prefix);
        let (data_length_size, data_length) = match varint::read(as_slice(src)) {
            Err(e) => return Err(CodecError::Varint(e)),
            Ok(found) => found,
        };
        advance(src, data_length_size);
        if data_length < 0 {
            return Err(CodecError::Size);
        }
        let data_length = data_length as usize;
        if data_length >= self.max_size || data_length_size > len {
            return Err(CodecError::Size);
        }
        let payload_length = len - data_length_size;
        let packet = if data_length == 0 {
            decode_raw_packet(src, payload_length)
        } else {
            let mut data = with_capacity(data_length);
            let done = inflate(slice_subrange(as_slice(src), 0, payload_length), &mut data);
            advance(src, payload_length);
            match done {
                Err(e) => Err(CodecError::Io(e)),
                Ok(()) => {
                    decode_raw_packet(&mut data, data_length)
                },
            }
        };
        match packet {
            Ok(packet) => Ok(Some(packet)),
            Err(e) => Err(e),
        }
    }

    /// Appends the frame of `item` to `dst`.
    pub fn encode(&mut self, item: &RawPacket, dst: &mut BytesMut) -> (r: Result<(), CodecError>)
        ensures
            appended(
                r,
                held(*old(dst)),
                held(*final(dst)),
                framed(item@.id, item@.data, old(self).threshold()),
            ),
            final(self).threshold() == old(self).threshold(),
            final(self).limit() == old(self).limit(),
    {
        self.write_frame(item.packet_id, item, dst)
    }

    /// Appends the frame of the packet `data` to `dst`. A raw form of the
    /// packet is made only where the body has to be compressed.
    pub fn encode_packet<T: Serialize + PacketId>(&mut self, data: &T, dst: &mut BytesMut) -> (r:
        Result<(), CodecError>)
        ensures
            appended(
                r,
                held(*old(dst)),
                held(*final(dst)),
                framed(T::packet_id(), data.wire(), old(self).threshold()),
            ),
            final(self).threshold() == old(self).threshold(),
            final(self).limit() == old(self).limit(),
    {
        self.write_frame(T::id(), data, dst)
    }

    /// Appends the frame of a packet with the number `id` and the bytes of
    /// `payload`.
    fn write_frame<T: Serialize>(&mut self, id: i32, payload: &T, dst: &mut BytesMut) -> (r:
        Result<(), CodecError>)
        ensures
            appended(
                r,
                held(*old(dst)),
                held(*final(dst)),
                framed(id, payload.wire(), old(self).threshold()),
            ),
            final(self).threshold() == old(self).threshold(),
            final(self).limit() == old(self).limit(),
    {
        let size = match varint::size(id).checked_add(payload.size()) {
            Some(size) => size,
            None => return Err(CodecError::Size),
        };
        if size >= self.compression_threshold {
            if size > i32::MAX as usize {
                return Err(CodecError::Size);
            }
            clear(&mut self.uncompressed_buffer);
            self.compressed_buffer.clear();
            reserve(&mut self.uncompressed_buffer, size);
            put_varint(&mut self.uncompressed_buffer, id);
            payload.serialize(&mut self.uncompressed_buffer);
            match deflate(as_slice(&self.uncompressed_buffer), &mut self.compressed_buffer) {
                Err(e) => Err(CodecError::Io(e)),
                Ok(()) => {
                    frame_deflated(size as i32, self.compressed_buffer.as_slice(), dst)
                },
            }
        } else {
            if size >= i32::MAX as usize {
                return Err(CodecError::Size);
            }
            put_varint(dst, (1 + size) as i32);
            put_varint(dst, 0);
            put_varint(dst, id);
            payload.serialize(dst);
            assert(held(*dst) =~= held(*old(dst)) + literal_frame(id, payload.wire()));
            Ok(())
        }
    }
}

} // verus!
