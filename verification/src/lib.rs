//! Framing for a length-prefixed, optionally zlib-compressed packet stream.
//!
//! A frame is a variable-length integer that gives the size of what follows,
//! then the body. The decoders work on a buffer that grows as bytes arrive:
//! they take a frame only once all of it is there, and until then leave the
//! buffer as it is. The encoders append whole frames.
//!
//! - [`varint`]: the variable-length integer.
//! - [`packet`]: a packet as it comes off the wire, and its typed reading.
//! - [`encoding`]: what a packet type offers so that it can be framed.
//! - [`codec`]: plain and compressed framing.
//! - [`buffer`], [`zlib`]: the calls into `bytes` and `flate2`, with what is
//!   taken on trust of them.

pub mod buffer;
pub mod codec;
pub mod encoding;
pub mod packet;
pub mod varint;
pub mod zlib;

pub use encoding::{Deserialize, PacketId, Serialize};
pub use packet::RawPacket;
