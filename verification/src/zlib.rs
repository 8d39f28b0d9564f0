//! Zlib streams, made and undone by the `flate2` crate.
//!
//! What a zlib stream looks like is `flate2`'s business and is not spelled
//! out here: the two streams get a name each, and the codecs speak of them by
//! that name. No law between the two names is taken for granted.

use bytes::{BufMut, BytesMut};
use flate2::write::{ZlibDecoder, ZlibEncoder};
use flate2::Compression;
use std::io::Write;
use vstd::prelude::*;

use crate::buffer::held;

verus! {

/// `std::io::Error`, which is only handed on.
#[verifier::external_type_specification]
#[verifier::external_body]
pub struct ExIoError(std::io::Error);

/// The zlib stream that `flate2` makes of `data` at its default level, or
/// `None` where it reports an error instead.
pub uninterp spec fn deflated(data: Seq<u8>) -> Option<Seq<u8>>;

/// The bytes that `flate2` gets out of the zlib stream `stream`, or `None`
/// where it reports an error instead.
pub uninterp spec fn inflated(stream: Seq<u8>) -> Option<Seq<u8>>;

/// `ZlibEncoder::new` at `Compression::default()`, `write_all` and `finish`:
/// all of `data` is compressed in one go and the stream is appended to
/// `out`. After an error `out` may hold a part of a stream.
#[verifier::external_body]
pub(crate) fn deflate(data: &[u8], out: &mut Vec<u8>) -> (r: Result<(), std::io::Error>)
    ensures
        match r {
            Ok(()) => deflated(data@) matches Some(stream) && final(out)@ == old(out)@ + stream,
            Err(_) => deflated(data@) is None,
        },
{
    let mut encoder = ZlibEncoder::new(out, Compression::default());
    encoder.write_all(data)?;
    encoder.finish()?;
    Ok(())
}

/// `ZlibDecoder::new`, `write_all` and `finish`: all of `stream` is fed to
/// the decoder and what comes out is appended to `out`. After an error `out`
/// may hold a part of the output.
#[verifier::external_body]
pub(crate) fn inflate(stream: &[u8], out: &mut BytesMut) -> (r: Result<(), std::io::Error>)
    ensures
        match r {
            Ok(()) => inflated(stream@) matches Some(data) && held(*final(out)) == held(*old(out))
                + data,
            Err(_) => inflated(stream@) is None,
        },
{
    let mut decoder = ZlibDecoder::new(out.writer());
    decoder.write_all(stream)?;
    decoder.finish()?;
    Ok(())
}

} // verus!
