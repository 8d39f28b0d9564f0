//! What a packet type has to offer so that the codecs can frame it.
//!
//! A type that can be sent knows the bytes that stand for it, how many they
//! are, and how to append them to a buffer. A type that can be received
//! knows how to read itself from a payload. A packet type also has the
//! number by which the other side tells it apart.

use bytes::BytesMut;
use vstd::prelude::*;

use crate::buffer::{extend_from_slice, held};
use crate::varint;

verus! {

/// A value that can be written to the wire.
pub trait Serialize {
    /// The bytes that stand for the value. An implementation that is
    /// verified says what they are; for any other they stay unspecified.
    open spec fn wire(&self) -> Seq<u8> {
        arbitrary()
    }

    /// The number of bytes that `serialize` appends.
    fn size(&self) -> (n: usize)
        ensures
            n == self.wire().len(),
    ;

    /// Appends the value's bytes to `buf`.
    fn serialize(&self, buf: &mut BytesMut)
        ensures
            held(*final(buf)) == held(*old(buf)) + self.wire(),
    ;
}

/// A value that can be read from a payload.
pub trait Deserialize: Sized {
    /// The value that `data` stands for, if it stands for one. An
    /// implementation that is verified says what it is; for any other it
    /// stays unspecified.
    open spec fn parsed(data: Seq<u8>) -> Option<Self> {
        arbitrary()
    }

    /// Reads a value from `data`, or gives `None` where `data` is malformed
    /// or too short.
    fn deserialize(data: &[u8]) -> (r: Option<Self>)
        ensures
            r == Self::parsed(data@),
    ;
}

/// A packet type, known on the wire by a fixed number.
pub trait PacketId {
    /// The number of this packet type. An implementation that is verified
    /// says what it is; for any other it stays unspecified.
    open spec fn packet_id() -> i32 {
        arbitrary()
    }

    /// The number of this packet type.
    fn id() -> (id: i32)
        ensures
            id == Self::packet_id(),
    ;
}

/// A 32-bit value that travels as a variable-length integer.
#[derive(Clone, Copy, Debug, PartialEq, Eq, Structural)]
pub struct VarInt(pub i32);

impl Serialize for VarInt {
    open spec fn wire(&self) -> Seq<u8> {
        varint::encoding(self.0)
    }

    fn size(&self) -> (n: usize) {
        varint::size(self.0)
    }

    fn serialize(&self, buf: &mut BytesMut) {
        let bytes = varint::write(self.0);
        extend_from_slice(buf, bytes.as_slice());
    }
}

impl Deserialize for VarInt {
    /// The value at the front of `data`. What follows it is not looked at.
    open spec fn parsed(data: Seq<u8>) -> Option<Self> {
        match varint::decoding(data) {
            Ok((_, value)) => Some(VarInt(value)),
            Err(_) => None,
        }
    }

    fn deserialize(data: &[u8]) -> (r: Option<Self>) {
        match varint::read(data) {
            Ok((_, value)) => Some(VarInt(value)),
            Err(_) => None,
        }
    }
}

} // verus!
