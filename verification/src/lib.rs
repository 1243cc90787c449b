//! Framing and decoding of the byte stream of a serial telemetry link.
//!
//! The device at the other end of the link interleaves text lines with
//! binary frames. This crate recovers both from chunks of bytes of any size,
//! validates each frame by its checksum and decodes the frames into a
//! snapshot of the latest sensor readings.

pub mod checksum;
pub mod console;
pub mod message;
pub mod ports;
pub mod scan;
pub mod session;
pub mod telemetry;
mod text;
pub mod tokenizer;
pub mod wire;
