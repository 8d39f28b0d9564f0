use bytes::{Bytes, BytesMut};
use netherite::encoding::{Deserialize, PacketId, Serialize, VarInt};
use netherite::packet::{PacketError, RawPacket};

struct Threshold(VarInt);

impl PacketId for Threshold {
    fn id() -> i32 {
        0x03
    }
}

impl Serialize for Threshold {
    fn size(&self) -> usize {
        self.0.size()
    }

    fn serialize(&self, buf: &mut BytesMut) {
        self.0.serialize(buf)
    }
}

impl Deserialize for Threshold {
    fn deserialize(data: &[u8]) -> Option<Self> {
        VarInt::deserialize(data).map(Threshold)
    }
}

struct Other;

impl PacketId for Other {
    fn id() -> i32 {
        0x02
    }
}

#[test]
fn varint_serializes_as_its_encoding() {
    let mut buf = BytesMut::new();
    buf.extend_from_slice(&[9]);
    let value = VarInt(300);
    value.serialize(&mut buf);
    assert_eq!(&buf[..], &[9, 0xac, 0x02]);
    assert_eq!(value.size(), 2);
}

#[test]
fn varint_deserializes_from_the_front() {
    assert_eq!(VarInt::deserialize(&[0xac, 0x02, 0x55]), Some(VarInt(300)));
    assert_eq!(VarInt::deserialize(&[0xac]), None);
    assert_eq!(VarInt::deserialize(&[0xff, 0xff, 0xff, 0xff, 0xff]), None);
}

#[test]
fn raw_form_of_a_typed_packet() {
    let packet = RawPacket::from_packet(&Threshold(VarInt(256)));
    assert_eq!(packet.packet_id, 0x03);
    assert_eq!(&packet.data[..], &[0x80, 0x02]);
}

#[test]
fn packet_knows_its_type() {
    let packet = RawPacket { packet_id: 0x03, data: Bytes::from(vec![0x80, 0x02]) };
    assert!(packet.is::<Threshold>());
    assert!(!packet.is::<Other>());
}

#[test]
fn packet_reads_as_its_type() {
    let packet = RawPacket { packet_id: 0x03, data: Bytes::from(vec![0x80, 0x02]) };
    let read = packet.deserialize::<Threshold>();
    assert!(matches!(read, Ok(Threshold(VarInt(256)))));
}

#[test]
fn packet_of_another_type_is_refused() {
    let packet = RawPacket { packet_id: 0x04, data: Bytes::from(vec![0x80, 0x02]) };
    assert!(matches!(packet.deserialize::<Threshold>(), Err(PacketError::WrongId)));
}

#[test]
fn unchecked_read_ignores_the_number() {
    let packet = RawPacket { packet_id: 0x04, data: Bytes::from(vec![0x80, 0x02]) };
    assert!(matches!(packet.deserialize_unchecked::<Threshold>(), Ok(Threshold(VarInt(256)))));
}

#[test]
fn short_payload_is_malformed() {
    let packet = RawPacket { packet_id: 0x03, data: Bytes::from(vec![0x80]) };
    assert!(matches!(packet.deserialize::<Threshold>(), Err(PacketError::Malformed)));
    assert!(matches!(packet.deserialize_unchecked::<Threshold>(), Err(PacketError::Malformed)));
}

#[test]
fn wrong_number_is_told_before_a_bad_payload() {
    let packet = RawPacket { packet_id: 0x00, data: Bytes::new() };
    assert!(matches!(packet.deserialize::<Threshold>(), Err(PacketError::WrongId)));
}

#[test]
fn clone_shares_the_payload() {
    let packet = RawPacket { packet_id: 7, data: Bytes::from(vec![1, 2, 3]) };
    let other = packet.clone();
    assert_eq!(other.packet_id, 7);
    assert_eq!(other.data, packet.data);
    assert_eq!(other.data.as_ptr(), packet.data.as_ptr());
}

#[test]
fn raw_packet_serializes_its_payload() {
    let packet = RawPacket { packet_id: 7, data: Bytes::from(vec![1, 2, 3]) };
    let mut buf = BytesMut::new();
    buf.extend_from_slice(&[0xaa]);
    packet.serialize(&mut buf);
    assert_eq!(&buf[..], &[0xaa, 1, 2, 3]);
    assert_eq!(packet.size(), 3);
}
