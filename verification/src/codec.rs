//! The two ways of framing packets, and what they share.
//!
//! Both begin a frame with its length as a variable-length integer. The
//! length is looked at before anything is taken from the buffer, so that a
//! frame of which only a part has arrived stays where it is.

use bytes::BytesMut;
use vstd::prelude::*;

use crate::buffer::{advance, as_slice, extend_from_slice, freeze, held, reserve, split_to};
use crate::codec::compressed::{CompressedCodec, DEFAULT_THRESHOLD};
use crate::codec::error::CodecError;
use crate::codec::uncompressed::UncompressedCodec;
use crate::encoding::{PacketId, Serialize};
use crate::packet::{PacketView, RawPacket};
use crate::varint;
use crate::varint::VarIntError;

pub mod compressed;
pub mod error;
pub mod uncompressed;

verus! {

/// What a decoder makes of the bytes it was given.
pub enum Outcome {
    /// No whole frame is there yet.
    NeedMore,
    /// A frame was there and held this packet.
    Packet(PacketView),
    /// A variable-length integer is malformed.
    Varint(VarIntError),
    /// A length is out of bounds.
    Size,
    /// The compressed body could not be inflated.
    Io,
}

/// The outcome of a decoding step and the bytes that it leaves in the buffer.
pub struct Step {
    pub outcome: Outcome,
    pub rest: Seq<u8>,
}

/// Whether the error `e` is the one that `outcome` names.
pub open spec fn fails_as(e: CodecError, outcome: Outcome) -> bool {
    match outcome {
        Outcome::Varint(v) => e matches CodecError::Varint(w) && w == v,
        Outcome::Size => e is Size,
        Outcome::Io => e is Io,
        _ => false,
    }
}

/// Whether a decoder's result `r` is the one that `outcome` names.
pub open spec fn reports(r: Result<Option<RawPacket>, CodecError>, outcome: Outcome) -> bool {
    match r {
        Ok(None) => outcome is NeedMore,
        Ok(Some(packet)) => outcome == Outcome::Packet(packet@),
        Err(e) => fails_as(e, outcome),
    }
}

/// Whether the result `r` of reading a frame's body is the one that `outcome`
/// names.
pub open spec fn yields(r: Result<RawPacket, CodecError>, outcome: Outcome) -> bool {
    match r {
        Ok(packet) => outcome == Outcome::Packet(packet@),
        Err(e) => fails_as(e, outcome),
    }
}

/// What writing a frame comes to.
pub enum Framed {
    /// These bytes are appended.
    Frame(Seq<u8>),
    /// A length is above the codec's limit or does not fit in a length field.
    Size,
    /// The compressor reported an error.
    Io,
}

/// Whether an encoder that started with `before` in its buffer, ended with
/// `after` and returned `r` did what `framed` names. After an error the
/// buffer is as it was.
pub open spec fn appended(
    r: Result<(), CodecError>,
    before: Seq<u8>,
    after: Seq<u8>,
    framed: Framed,
) -> bool {
    match framed {
        Framed::Frame(frame) => r is Ok && after == before + frame,
        Framed::Size => r matches Err(CodecError::Size) && after == before,
        Framed::Io => r matches Err(CodecError::Io(_)) && after == before,
    }
}

/// What the length prefix at the front of a buffer says.
pub enum Prefix {
    /// The prefix or the frame behind it is not all there yet.
    NeedMore,
    /// The prefix is malformed.
    Varint(VarIntError),
    /// The length is zero, negative, or not below the codec's limit.
    Size,
    /// A whole frame is there: its prefix takes `prefix` bytes and what
    /// follows takes `len`.
    Frame { prefix: nat, len: nat },
}

/// Reads the length prefix of `buf` for a codec that accepts frames shorter
/// than `max_size`.
pub open spec fn prefix_of(buf: Seq<u8>, max_size: usize) -> Prefix {
    match varint::decoding(buf) {
        Err(VarIntError::Eof) => Prefix::NeedMore,
        Err(e) => Prefix::Varint(e),
        Ok((n, len)) => if len < 1 || len >= max_size {
            Prefix::Size
        } else if len > buf.len() - n {
            Prefix::NeedMore
        } else {
            Prefix::Frame { prefix: n, len: len as nat }
        },
    }
}

/// Reads a packet from the front of `buf`: its number, and a payload that
/// makes `payload_length` bytes together with the number.
///
/// The number is read from `buf` as it is, so where it runs past
/// `payload_length` the length is at fault.
pub open spec fn body_of(buf: Seq<u8>, payload_length: nat) -> Step {
    match varint::decoding(buf) {
        Err(e) => Step { outcome: Outcome::Varint(e), rest: buf },
        Ok((n, id)) => {
            let after = buf.skip(n as int);
            if n > payload_length || payload_length - n > after.len() {
                Step { outcome: Outcome::Size, rest: after }
            } else {
                Step {
                    outcome: Outcome::Packet(
                        PacketView { id, data: after.take(payload_length - n) },
                    ),
                    rest: after.skip(payload_length - n),
                }
            }
        },
    }
}

/// A frame's length prefix followed by all that it announces, and by
/// anything else, reads as a whole frame.
pub proof fn lemma_prefix_whole(len: i32, body: Seq<u8>, rest: Seq<u8>, max_size: usize)
    requires
        1 <= len < max_size,
        body.len() == len,
    ensures
        prefix_of(varint::encoding(len) + body + rest, max_size) == (Prefix::Frame {
            prefix: varint::encoding(len).len(),
            len: len as nat,
        }),
        (varint::encoding(len) + body + rest).skip(varint::encoding(len).len() as int) == body
            + rest,
{
    let buf = varint::encoding(len) + body + rest;
    assert(buf =~= varint::encoding(len) + (body + rest));
    varint::lemma_read_write(len, body + rest);
}

/// A frame of which the end is missing reads as not yet there, wherever it
/// was cut: in its length prefix or behind it.
pub proof fn lemma_prefix_partial(len: i32, body: Seq<u8>, max_size: usize, k: nat)
    requires
        1 <= len < max_size,
        body.len() == len,
        k < (varint::encoding(len) + body).len(),
    ensures
        prefix_of((varint::encoding(len) + body).take(k as int), max_size) == Prefix::NeedMore,
{
    let head = varint::encoding(len);
    let cut = (head + body).take(k as int);
    if k < head.len() {
        assert(cut =~= head.take(k as int));
        varint::lemma_prefix_incomplete(len, k);
    } else {
        assert(cut =~= head + body.take(k - head.len()));
        varint::lemma_read_write(len, body.take(k - head.len()));
    }
}

/// A packet's number followed by its payload, and by anything else, reads as
/// that packet where the length given is that of the two.
pub proof fn lemma_body_whole(id: i32, payload: Seq<u8>, rest: Seq<u8>)
    ensures
        body_of(
            varint::encoding(id) + payload + rest,
            varint::encoding(id).len() + payload.len(),
        ) == (Step { outcome: Outcome::Packet(PacketView { id, data: payload }), rest }),
{
    let buf = varint::encoding(id) + payload + rest;
    let n = varint::encoding(id).len();
    assert(buf =~= varint::encoding(id) + (payload + rest));
    varint::lemma_read_write(id, payload + rest);
    let after = buf.skip(n as int);
    assert(after.take(payload.len() as int) =~= payload);
    assert(after.skip(payload.len() as int) =~= rest);
}

/// The codec of a connection: plain framing at first, compressed framing once
/// both sides have agreed on it.
pub enum MinecraftCodec {
    Uncompressed(UncompressedCodec),
    Compressed(CompressedCodec),
}

/// Appends `value` as a variable-length integer.
pub(crate) fn put_varint(dst: &mut BytesMut, value: i32)
    ensures
        held(*final(dst)) == held(*old(dst)) + varint::encoding(value),
{
    let bytes = varint::write(value);
    extend_from_slice(dst, bytes.as_slice());
}

/// Looks at the length prefix of `src` without taking anything from it. For a
/// whole frame it gives the size of the prefix and the length that it holds.
/// Where a part of the frame is missing it asks `src` to make room for it.
pub(crate) fn peek_frame(src: &mut BytesMut, max_size: usize) -> (r: Result<
    Option<(usize, usize)>,
    CodecError,
>)
    ensures
        held(*final(src)) == held(*old(src)),
        match prefix_of(held(*old(src)), max_size) {
            Prefix::NeedMore => r matches Ok(None),
            Prefix::Varint(v) => r matches Err(CodecError::Varint(w)) && w == v,
            Prefix::Size => r matches Err(CodecError::Size),
            Prefix::Frame { prefix, len } => r matches Ok(Some((n, l))) && n == prefix && l == len,
        },
{
    let buffered = as_slice(src).len();
    let (prefix, len) = match varint::read(as_slice(src)) {
        Err(VarIntError::Eof) => return Ok(None),
        Err(e) => return Err(CodecError::Varint(e)),
        Ok(found) => found,
    };
    if len < 1 {
        return Err(CodecError::Size);
    }
    let len = len as usize;
    if len >= max_size {
        return Err(CodecError::Size);
    }
    let remaining = buffered - prefix;
    if len > remaining {
        let missing = len - remaining;
        if missing <= isize::MAX as usize && buffered <= isize::MAX as usize - missing {
            reserve(src, missing);
        }
        return Ok(None);
    }
    Ok(Some((prefix, len)))
}

/// Reads a packet from the front of `buf`: its number, and a payload that
/// makes `payload_length` bytes together with the number. The payload leaves
/// `buf` without being copied.
pub fn decode_raw_packet(buf: &mut BytesMut, payload_length: usize) -> (r: Result<
    RawPacket,
    CodecError,
>)
    ensures
        yields(r, body_of(held(*old(buf)), payload_length as nat).outcome),
        held(*final(buf)) == body_of(held(*old(buf)), payload_length as nat).rest,
{
    let (id_size, packet_id) = match varint::read(as_slice(buf)) {
        Err(e) => return Err(CodecError::Varint(e)),
        Ok(found) => found,
    };
    advance(buf, id_size);
    if id_size > payload_length {
        return Err(CodecError::Size);
    }
    let data_length = payload_length - id_size;
    if data_length > as_slice(buf).len() {
        return Err(CodecError::Size);
    }
    let data = freeze(split_to(buf, data_length));
    Ok(RawPacket { packet_id, data })
}

impl MinecraftCodec {
    /// What decoding makes of the buffer `buf`, in the framing that the codec
    /// stands for.
    pub open spec fn step(&self, buf: Seq<u8>) -> Step {
        match *self {
            MinecraftCodec::Uncompressed(inner) => uncompressed::step(buf, inner.limit()),
            MinecraftCodec::Compressed(inner) => compressed::step(buf, inner.limit()),
        }
    }

    /// What framing a packet comes to, in the framing that the codec stands
    /// for.
    pub open spec fn framed(&self, id: i32, payload: Seq<u8>) -> Framed {
        match *self {
            MinecraftCodec::Uncompressed(inner) => uncompressed::framed(id, payload, inner.limit()),
            MinecraftCodec::Compressed(inner) => compressed::framed(id, payload, inner.threshold()),
        }
    }

    /// Whether `other` frames as this codec does: in the same way, with the
    /// same limit and the same threshold.
    pub open spec fn same_framing(&self, other: &MinecraftCodec) -> bool {
        match (*self, *other) {
            (MinecraftCodec::Uncompressed(a), MinecraftCodec::Uncompressed(b)) => a.limit()
                == b.limit(),
            (MinecraftCodec::Compressed(a), MinecraftCodec::Compressed(b)) => a.limit()
                == b.limit() && a.threshold() == b.threshold(),
            _ => false,
        }
    }

    /// Takes one frame from the front of `src`, if a whole one is there, in
    /// the framing that the codec stands for.
    pub fn decode(&self, src: &mut BytesMut) -> (r: Result<Option<RawPacket>, CodecError>)
        ensures
            reports(r, self.step(held(*old(src))).outcome),
            held(*final(src)) == self.step(held(*old(src))).rest,
    {
        match self {
            MinecraftCodec::Uncompressed(inner) => inner.decode(src),
            MinecraftCodec::Compressed(inner) => inner.decode(src),
        }
    }

    /// Appends the frame of `item` to `dst`, in the framing that the codec
    /// stands for.
    pub fn encode(&mut self, item: &RawPacket, dst: &mut BytesMut) -> (r: Result<(), CodecError>)
        ensures
            appended(
                r,
                held(*old(dst)),
                held(*final(dst)),
                old(self).framed(item@.id, item@.data),
            ),
            final(self).same_framing(old(self)),
    {
        match self {
            MinecraftCodec::Uncompressed(inner) => inner.encode(item, dst),
            MinecraftCodec::Compressed(inner) => inner.encode(item, dst),
        }
    }

    /// Appends the frame of the packet `data` to `dst`, in the framing that
    /// the codec stands for.
    pub fn encode_packet<T: Serialize + PacketId>(&mut self, data: &T, dst: &mut BytesMut) -> (r:
        Result<(), CodecError>)
        ensures
            appended(
                r,
                held(*old(dst)),
                held(*final(dst)),
                old(self).framed(T::packet_id(), data.wire()),
            ),
            final(self).same_framing(old(self)),
    {
        match self {
            MinecraftCodec::Uncompressed(inner) => inner.encode_packet(data, dst),
            MinecraftCodec::Compressed(inner) => inner.encode_packet(data, dst),
        }
    }

    /// Plain framing with no limit on the frame size.
    pub fn uncompressed() -> (codec: Self)
        ensures
            codec matches MinecraftCodec::Uncompressed(inner) && inner.limit() == usize::MAX,
    {
        MinecraftCodec::Uncompressed(UncompressedCodec::default())
    }

    /// Compressed framing with the default threshold and no limit on the
    /// frame size.
    pub fn compressed() -> (codec: Self)
        ensures
            codec matches MinecraftCodec::Compressed(inner) && inner.limit() == usize::MAX
                && inner.threshold() == DEFAULT_THRESHOLD,
    {
        MinecraftCodec::Compressed(CompressedCodec::default())
    }
}

} // verus!
