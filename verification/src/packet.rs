//! The packet as it comes off the wire: a number and an opaque payload.

use bytes::{Bytes, BytesMut};
use vstd::prelude::*;

use crate::buffer::{extend_from_slice, freeze, held, shared, shared_slice, with_capacity};
use crate::encoding::{Deserialize, PacketId, Serialize};

verus! {

/// A packet as the contracts speak of it.
pub struct PacketView {
    /// The number that tells the packet's type.
    pub id: i32,
    /// The payload.
    pub data: Seq<u8>,
}

/// A packet whose payload has not been read yet.
///
/// The payload is a shared buffer: a clone points to the same bytes.
#[derive(Debug)]
pub struct RawPacket {
    /// The number that tells the packet's type.
    pub packet_id: i32,
    /// The payload.
    pub data: Bytes,
}

/// Why a packet could not be read as a given type.
#[derive(Clone, Copy, Debug, PartialEq, Eq, Structural)]
pub enum PacketError {
    /// The packet's number is that of another type.
    WrongId,
    /// The payload is not what the type's reader accepts.
    Malformed,
}

impl View for RawPacket {
    type V = PacketView;

    open spec fn view(&self) -> PacketView {
        PacketView { id: self.packet_id, data: shared(self.data) }
    }
}

impl Clone for RawPacket {
    /// A packet with the same number that shares the payload.
    fn clone(&self) -> (other: Self)
        ensures
            other@ == self@,
    {
        RawPacket { packet_id: self.packet_id, data: self.data.clone() }
    }
}

/// What reading `packet` as a `T` gives.
pub open spec fn typed<T: Deserialize + PacketId>(packet: PacketView) -> Result<T, PacketError> {
    if packet.id != T::packet_id() {
        Err(PacketError::WrongId)
    } else {
        match T::parsed(packet.data) {
            Some(value) => Ok(value),
            None => Err(PacketError::Malformed),
        }
    }
}

impl RawPacket {
    /// The raw form of `value`: its type's number and its bytes.
    pub fn from_packet<T: Serialize + PacketId>(value: &T) -> (packet: RawPacket)
        ensures
            packet@ == (PacketView { id: T::packet_id(), data: value.wire() }),
    {
        let size = value.size();
        let mut buf = with_capacity(if size <= isize::MAX as usize { size } else { 0 });
        value.serialize(&mut buf);
        let packet = RawPacket { packet_id: T::id(), data: freeze(buf) };
        packet
    }

    /// Whether the packet's number is that of `T`.
    pub fn is<T: PacketId>(&self) -> (b: bool)
        ensures
            b == (self.packet_id == T::packet_id()),
    {
        self.packet_id == T::id()
    }

    /// Reads the packet as a `T`, after checking that it has `T`'s number.
    pub fn deserialize<T: Deserialize + PacketId>(&self) -> (r: Result<T, PacketError>)
        ensures
            r == typed::<T>(self@),
    {
        if self.packet_id != T::id() {
            return Err(PacketError::WrongId);
        }
        self.deserialize_unchecked()
    }

    /// Reads the payload as a `T`, whatever number the packet has.
    pub fn deserialize_unchecked<T: Deserialize>(&self) -> (r: Result<T, PacketError>)
        ensures
            r == match T::parsed(self@.data) {
                Some(value) => Ok::<T, PacketError>(value),
                None => Err::<T, PacketError>(PacketError::Malformed),
            },
    {
        match T::deserialize(shared_slice(&self.data)) {
            Some(value) => Ok(value),
            None => Err(PacketError::Malformed),
        }
    }
}

impl Serialize for RawPacket {
    /// A raw packet's bytes are its payload, as it is.
    open spec fn wire(&self) -> Seq<u8> {
        shared(self.data)
    }

    fn size(&self) -> (n: usize) {
        shared_slice(&self.data).len()
    }

    fn serialize(&self, buf: &mut BytesMut) {
        extend_from_slice(buf, shared_slice(&self.data));
    }
}

} // verus!
