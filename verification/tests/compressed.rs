use bytes::{Bytes, BytesMut};
use flate2::write::{ZlibDecoder, ZlibEncoder};
use flate2::Compression;
use netherite::codec::compressed::{frame_deflated, CompressedCodec, DEFAULT_THRESHOLD};
use netherite::codec::error::CodecError;
use netherite::encoding::{PacketId, Serialize};
use netherite::packet::RawPacket;
use netherite::varint;
use netherite::varint::VarIntError;
use std::io::Write;

struct Filler {
    count: usize,
}

impl PacketId for Filler {
    fn id() -> i32 {
        0x8c
    }
}

impl Serialize for Filler {
    fn size(&self) -> usize {
        self.count
    }

    fn serialize(&self, buf: &mut BytesMut) {
        buf.extend_from_slice(&vec![0x2a; self.count]);
    }
}

struct Boundless;

impl PacketId for Boundless {
    fn id() -> i32 {
        0
    }
}

impl Serialize for Boundless {
    fn size(&self) -> usize {
        i32::MAX as usize
    }

    fn serialize(&self, _buf: &mut BytesMut) {
    }
}

fn raw(id: i32, data: &[u8]) -> RawPacket {
    RawPacket { packet_id: id, data: Bytes::copy_from_slice(data) }
}

fn zlib(data: &[u8]) -> Vec<u8> {
    let mut encoder = ZlibEncoder::new(Vec::new(), Compression::default());
    encoder.write_all(data).unwrap();
    encoder.finish().unwrap()
}

fn unzlib(stream: &[u8]) -> Vec<u8> {
    let mut decoder = ZlibDecoder::new(Vec::new());
    decoder.write_all(stream).unwrap();
    decoder.finish().unwrap()
}

/// The two length fields of a frame and the body behind them.
fn fields(frame: &[u8]) -> (i32, i32, &[u8]) {
    let (n, len) = varint::read(frame).unwrap();
    let (m, data_len) = varint::read(&frame[n..]).unwrap();
    assert_eq!(frame.len(), n + len as usize);
    (len, data_len, &frame[n + m..])
}

#[test]
fn literal_frame_of_ten_zero_bytes() {
    let mut codec = CompressedCodec::default().compression(256);
    let mut buf = BytesMut::new();
    codec.encode(&raw(0, &[0; 10]), &mut buf).unwrap();
    let mut expected = vec![12, 0, 0];
    expected.extend_from_slice(&[0; 10]);
    assert_eq!(&buf[..], &expected[..]);
    let (_, data_len, body) = fields(&expected);
    assert_eq!(data_len, 0);
    assert_eq!(body.len(), 11);
    let read = codec.decode(&mut buf).unwrap().unwrap();
    assert_eq!(read.packet_id, 0);
    assert_eq!(&read.data[..], &[0; 10]);
    assert!(buf.is_empty());
}

#[test]
fn deflated_frame_of_300_zero_bytes() {
    let mut codec = CompressedCodec::default().compression(10);
    let mut buf = BytesMut::new();
    codec.encode(&raw(0, &[0; 300]), &mut buf).unwrap();
    let frame = buf.to_vec();
    let (len, data_len, body) = fields(&frame);
    assert_eq!(data_len, 301);
    assert!(body.len() < 301);
    assert_eq!(len as usize, 2 + body.len());
    assert_eq!(unzlib(body), vec![0; 301]);
    assert_eq!(body, &zlib(&[0; 301])[..]);
    let read = codec.decode(&mut buf).unwrap().unwrap();
    assert_eq!(read.packet_id, 0);
    assert_eq!(&read.data[..], &[0; 300][..]);
    assert!(buf.is_empty());
}

#[test]
fn body_of_the_threshold_size_is_deflated() {
    let mut codec = CompressedCodec::default().compression(11);
    let mut buf = BytesMut::new();
    codec.encode(&raw(0, &[5; 10]), &mut buf).unwrap();
    let frame = buf.to_vec();
    let (_, data_len, body) = fields(&frame);
    assert_eq!(data_len, 11);
    let mut packet = vec![0];
    packet.extend_from_slice(&[5; 10]);
    assert_eq!(unzlib(body), packet);
}

#[test]
fn body_one_byte_below_the_threshold_is_literal() {
    let mut codec = CompressedCodec::default().compression(12);
    let mut buf = BytesMut::new();
    codec.encode(&raw(0, &[5; 10]), &mut buf).unwrap();
    assert_eq!(&buf[..], &[12, 0, 0, 5, 5, 5, 5, 5, 5, 5, 5, 5, 5]);
}

#[test]
fn default_threshold_is_256() {
    assert_eq!(DEFAULT_THRESHOLD, 256);
    let mut codec = CompressedCodec::default();
    assert_eq!(codec.compression_treshold(), 256);
    let mut buf = BytesMut::new();
    codec.encode(&raw(0, &[1; 254]), &mut buf).unwrap();
    assert_eq!(fields(&buf.to_vec()).1, 0);
    let mut buf = BytesMut::new();
    codec.encode(&raw(0, &[1; 255]), &mut buf).unwrap();
    assert_eq!(fields(&buf.to_vec()).1, 256);
}

#[test]
fn threshold_can_be_set() {
    let mut codec = CompressedCodec::default().compression(64).max_size(1000);
    assert_eq!(codec.compression_treshold(), 64);
    codec.set_compression(5);
    assert_eq!(codec.compression_treshold(), 5);
    let mut buf = BytesMut::new();
    codec.encode(&raw(1, &[1, 2, 3, 4]), &mut buf).unwrap();
    assert_eq!(fields(&buf.to_vec()).1, 5);
    let mut buf = BytesMut::from(&[0xe8, 0x07, 0][..]);
    assert!(matches!(codec.decode(&mut buf), Err(CodecError::Size)));
}

#[test]
fn threshold_of_zero_deflates_everything() {
    let mut codec = CompressedCodec::default().compression(0);
    let mut buf = BytesMut::new();
    codec.encode(&raw(3, &[]), &mut buf).unwrap();
    assert_eq!(fields(&buf.to_vec()).1, 1);
    let read = codec.decode(&mut buf).unwrap().unwrap();
    assert_eq!(read.packet_id, 3);
    assert!(read.data.is_empty());
}

#[test]
fn compressed_round_trip_on_both_sides_of_the_threshold() {
    let mut codec = CompressedCodec::default().compression(64);
    for (id, len) in [(0, 0usize), (1, 10), (127, 62), (127, 63), (128, 62), (-1, 59), (-1, 58), (9, 5000), (i32::MAX, 70000)] {
        let data: Vec<u8> = (0..len).map(|i| (i * 7 % 253) as u8).collect();
        let mut buf = BytesMut::new();
        codec.encode(&raw(id, &data), &mut buf).unwrap();
        let size = varint::size(id) + len;
        let (_, data_len, _) = fields(&buf.to_vec());
        assert_eq!(data_len as usize, if size >= 64 { size } else { 0 });
        let read = codec.decode(&mut buf).unwrap().unwrap();
        assert_eq!(read.packet_id, id);
        assert_eq!(&read.data[..], &data[..]);
        assert!(buf.is_empty());
    }
}

#[test]
fn compressed_decode_leaves_the_next_frame() {
    let mut codec = CompressedCodec::default().compression(8);
    let mut buf = BytesMut::new();
    codec.encode(&raw(1, &[9; 40]), &mut buf).unwrap();
    codec.encode(&raw(2, &[8]), &mut buf).unwrap();
    buf.extend_from_slice(&[0x33]);
    let first = codec.decode(&mut buf).unwrap().unwrap();
    assert_eq!((first.packet_id, &first.data[..]), (1, &[9u8; 40][..]));
    let second = codec.decode(&mut buf).unwrap().unwrap();
    assert_eq!((second.packet_id, &second.data[..]), (2, &[8u8][..]));
    assert_eq!(&buf[..], &[0x33]);
}

#[test]
fn compressed_decode_of_every_prefix_waits() {
    let mut codec = CompressedCodec::default().compression(32);
    for len in [3usize, 200] {
        let mut frame = BytesMut::new();
        codec.encode(&raw(300, &vec![7; len]), &mut frame).unwrap();
        for k in 0..frame.len() {
            let mut buf = BytesMut::from(&frame[..k]);
            for _ in 0..3 {
                assert!(matches!(codec.decode(&mut buf), Ok(None)));
                assert_eq!(&buf[..], &frame[..k]);
            }
        }
    }
}

#[test]
fn compressed_zero_length_is_rejected() {
    let codec = CompressedCodec::default();
    let mut buf = BytesMut::from(&[0, 0, 0][..]);
    assert!(matches!(codec.decode(&mut buf), Err(CodecError::Size)));
    assert_eq!(&buf[..], &[0, 0, 0]);
}

#[test]
fn compressed_length_at_the_limit_is_rejected() {
    let codec = CompressedCodec::default().max_size(3);
    let mut buf = BytesMut::from(&[3, 0, 1, 2][..]);
    assert!(matches!(codec.decode(&mut buf), Err(CodecError::Size)));
    let mut buf = BytesMut::from(&[2, 0, 1][..]);
    assert!(matches!(codec.decode(&mut buf), Ok(Some(_))));
}

#[test]
fn inflated_size_at_the_limit_is_rejected() {
    let codec = CompressedCodec::default().max_size(100);
    let mut buf = BytesMut::from(&[3, 100, 1, 2][..]);
    assert!(matches!(codec.decode(&mut buf), Err(CodecError::Size)));
    let mut buf = BytesMut::from(&[4, 0xe8, 0x07, 1, 2][..]);
    assert!(matches!(codec.decode(&mut buf), Err(CodecError::Size)));
}

#[test]
fn negative_inflated_size_is_rejected() {
    let codec = CompressedCodec::default();
    let mut buf = BytesMut::from(&[6, 0xff, 0xff, 0xff, 0xff, 0x0f, 0][..]);
    assert!(matches!(codec.decode(&mut buf), Err(CodecError::Size)));
}

#[test]
fn inflated_size_that_runs_past_the_frame_is_rejected() {
    let codec = CompressedCodec::default();
    let mut buf = BytesMut::from(&[1, 0x80, 0x01, 0][..]);
    assert!(matches!(codec.decode(&mut buf), Err(CodecError::Size)));
}

#[test]
fn malformed_inflated_size_is_rejected() {
    let codec = CompressedCodec::default();
    let mut buf = BytesMut::from(&[6, 0x80, 0x80, 0x80, 0x80, 0x80, 0x01][..]);
    assert!(matches!(codec.decode(&mut buf), Err(CodecError::Varint(VarIntError::TooLong))));
    let mut buf = BytesMut::from(&[1, 0x80][..]);
    assert!(matches!(codec.decode(&mut buf), Err(CodecError::Varint(VarIntError::Eof))));
}

#[test]
fn body_that_is_no_zlib_stream_is_an_io_error() {
    let codec = CompressedCodec::default();
    let mut buf = BytesMut::from(&[4, 5, 0xde, 0xad, 0xbe, 0x77][..]);
    assert!(matches!(codec.decode(&mut buf), Err(CodecError::Io(_))));
    assert_eq!(&buf[..], &[0x77]);
}

#[test]
fn body_that_inflates_to_more_is_cut_at_its_size() {
    let codec = CompressedCodec::default();
    let stream = zlib(&[7, 1, 2, 3, 4]);
    let mut buf = BytesMut::new();
    frame_deflated(3, &stream, &mut buf).unwrap();
    let read = codec.decode(&mut buf).unwrap().unwrap();
    assert_eq!((read.packet_id, &read.data[..]), (7, &[1u8, 2][..]));
    assert!(buf.is_empty());
}

#[test]
fn body_that_inflates_to_less_is_a_size_error() {
    let codec = CompressedCodec::default();
    let stream = zlib(&[7, 1, 2, 3, 4]);
    let mut buf = BytesMut::new();
    frame_deflated(9, &stream, &mut buf).unwrap();
    assert!(matches!(codec.decode(&mut buf), Err(CodecError::Size)));
    assert!(buf.is_empty());
}

#[test]
fn stream_is_framed_behind_its_size() {
    let mut buf = BytesMut::from(&[0xaa][..]);
    frame_deflated(5, &[1, 2, 3], &mut buf).unwrap();
    assert_eq!(&buf[..], &[0xaa, 4, 5, 1, 2, 3]);
    let mut buf = BytesMut::new();
    frame_deflated(301, &[9; 130], &mut buf).unwrap();
    assert_eq!(&buf[..4], &[0x84, 0x01, 0xad, 0x02]);
    assert_eq!(buf.len(), 2 + 2 + 130);
}

#[test]
fn fresh_codecs_write_the_same_bytes() {
    let packet = raw(4, &[3; 500]);
    let mut first = BytesMut::new();
    CompressedCodec::default().encode(&packet, &mut first).unwrap();
    let mut second = BytesMut::new();
    CompressedCodec::default().encode(&packet, &mut second).unwrap();
    assert_eq!(first, second);
}

#[test]
fn a_used_codec_writes_the_same_bytes() {
    let packet = raw(4, &[3; 500]);
    let mut fresh = BytesMut::new();
    CompressedCodec::default().encode(&packet, &mut fresh).unwrap();
    let mut codec = CompressedCodec::default();
    let mut scratch = BytesMut::new();
    codec.encode(&raw(9, &[0x55; 3000]), &mut scratch).unwrap();
    codec.encode(&raw(1, &[1]), &mut scratch).unwrap();
    let mut used = BytesMut::new();
    codec.encode(&packet, &mut used).unwrap();
    assert_eq!(fresh, used);
}

#[test]
fn compressed_typed_frame_is_that_of_the_raw_form() {
    let mut codec = CompressedCodec::default().compression(100);
    for count in [0usize, 50, 97, 98, 99, 4000] {
        let mut typed = BytesMut::new();
        codec.encode_packet(&Filler { count }, &mut typed).unwrap();
        let mut plain = BytesMut::new();
        codec.encode(&RawPacket::from_packet(&Filler { count }), &mut plain).unwrap();
        assert_eq!(typed, plain);
        let read = codec.decode(&mut typed).unwrap().unwrap();
        assert!(read.is::<Filler>());
        assert_eq!(&read.data[..], &vec![0x2a; count][..]);
    }
}

#[test]
fn size_beyond_a_length_field_is_rejected() {
    let mut codec = CompressedCodec::default();
    let mut buf = BytesMut::from(&[1][..]);
    assert!(matches!(codec.encode_packet(&Boundless, &mut buf), Err(CodecError::Size)));
    assert_eq!(&buf[..], &[1]);
    let mut codec = CompressedCodec::default().compression(usize::MAX);
    assert!(matches!(codec.encode_packet(&Boundless, &mut buf), Err(CodecError::Size)));
    assert_eq!(&buf[..], &[1]);
}
