//! What can go wrong while frames are read or written.

use vstd::prelude::*;

use crate::varint::VarIntError;

verus! {

/// An error of a codec. Each one ends the connection: after a length field
/// that was misread, nothing tells where the next frame starts.
#[derive(Debug)]
pub enum CodecError {
    /// The compressor or the decompressor reported an error.
    Io(std::io::Error),
    /// A variable-length integer in the frame is malformed.
    Varint(VarIntError),
    /// A length is outside the bounds of the codec or of the wire format.
    Size,
}

impl CodecError {
    /// The error in words.
    pub fn message(&self) -> (text: &'static str)
        ensures
            text@ == match *self {
                CodecError::Io(_) => "underlying io"@,
                CodecError::Varint(VarIntError::Eof) => "varint: unexpected end of input"@,
                CodecError::Varint(VarIntError::TooLong) => "varint: too many bytes"@,
                CodecError::Varint(VarIntError::Overflow) => "varint: value overflows 32 bits"@,
                CodecError::Size => "packet has invalid size"@,
            },
    {
        match self {
            CodecError::Io(_) => "underlying io",
            CodecError::Varint(VarIntError::Eof) => "varint: unexpected end of input",
            CodecError::Varint(VarIntError::TooLong) => "varint: too many bytes",
            CodecError::Varint(VarIntError::Overflow) => "varint: value overflows 32 bits",
            CodecError::Size => "packet has invalid size",
        }
    }
}

} // verus!
