//! Streaming bit-level analyzers for raw binary data.
//!
//! Two independent components, each driven one block or element at a time by
//! a caller that owns the I/O:
//!
//! - `BitFrequency` counts, per bit position, in how many of the fixed-size
//!   byte blocks seen so far that bit was set.
//! - `BitAccumulator` and `ExtractionPipeline` pull one chosen bit out of
//!   each 16-bit big-endian element of a stream and pack the extracted bits
//!   into whole output bytes.

pub mod bitacc;
pub mod bitfreq;
pub mod bitops;
pub mod decimal;
pub mod extract;
