//! Constants of the wire protocol: the bytes that delimit messages and the
//! layout of a binary frame.
//!
//! A frame on the wire is
//!
//! | offset            | content                                   |
//! |-------------------|-------------------------------------------|
//! | 0                 | start marker, `0xFE`                      |
//! | 1..=3             | reserved                                  |
//! | 4                 | payload length `n`                        |
//! | 5                 | frame type                                |
//! | 6..6+n            | payload                                   |
//! | 6+n               | XOR checksum over all bytes before it     |
//!
//! so a frame with payload length `n` is `n + 7` bytes long.

use vstd::prelude::*;

verus! {

/// First byte of every binary frame. It never occurs inside a text line.
pub const FRAME_MARKER: u8 = 0xFE;

/// Ends a text line.
pub const LINE_FEED: u8 = 0x0A;

/// Ends a text line.
pub const CARRIAGE_RETURN: u8 = 0x0D;

/// Offset of the payload-length byte within a frame.
pub const LENGTH_OFFSET: usize = 4;

/// Offset of the frame-type byte within a frame.
pub const TYPE_OFFSET: usize = 5;

/// Number of bytes before the payload: marker, three reserved bytes, length, type.
pub const HEADER_LEN: usize = 6;

/// Number of bytes after the payload: the checksum.
pub const CHECKSUM_LEN: usize = 1;

/// Distance from the start marker, beyond the declared payload length, of the
/// byte on which the scanner closes a frame.
///
/// The scanner never counts the byte just before a closing position as part
/// of a message, for frames as for text lines. A frame is therefore closed
/// not on the first byte after its checksum but on the second:
/// `HEADER_LEN + CHECKSUM_LEN + 1`. With this value the bytes handed out are
/// exactly the `n + 7` bytes of the frame, and the one byte that follows the
/// checksum on the wire is discarded.
pub const FRAME_OVERHEAD: usize = 8;

/// The bytes that end a segment of the stream outside a frame.
pub open spec fn is_delimiter(byte: u8) -> bool {
    byte == LINE_FEED || byte == CARRIAGE_RETURN || byte == FRAME_MARKER
}

/// The bytes that end a text line.
pub open spec fn is_line_end(byte: u8) -> bool {
    byte == LINE_FEED || byte == CARRIAGE_RETURN
}

/// A byte sequence that has the shape of one frame: it starts with the
/// marker and is as long as its length byte says.
pub open spec fn well_delimited(frame: Seq<u8>) -> bool {
    &&& frame.len() > LENGTH_OFFSET
    &&& frame[0] == FRAME_MARKER
    &&& frame.len() == frame[LENGTH_OFFSET as int] as int + HEADER_LEN + CHECKSUM_LEN
}

} // verus!
