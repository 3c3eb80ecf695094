//! Decoder and encoder for a compact binary structural-data format.
//!
//! A field of the format is a 12-byte header (codec id, element count,
//! parameter, each a big-endian 32-bit signed integer) followed by a payload.
//! The codec id selects a pipeline built from byte interpretation and four
//! composable numeric transforms (run-length, delta, integer quantization,
//! recursive indexing). Every decode and encode step is a pure function over
//! in-memory buffers and returns a typed error on malformed input.
//!
//! Floating-point results are represented throughout as IEEE-754 binary32 bit
//! patterns (`u32`); the quantization steps compute those bit patterns with
//! exact integer arithmetic (round to nearest, ties to even).

pub mod binary32;
pub mod binary_decoder;
pub mod codec;
pub mod decode;
pub mod encode;
pub mod encoding;
