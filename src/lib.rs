//! A full-duplex audio pipeline: samples captured from a device are framed
//! as little-endian bytes for a datagram peer, and samples received from the
//! peer are buffered for playback.
//!
//! A sample is a 32-bit IEEE-754 amplitude. The library carries each sample
//! as its bit pattern (`u32`), so every operation here moves samples
//! bit-exactly and never interprets them as numbers.
pub mod buffer;
pub mod codec;
pub mod transport;

pub use buffer::SampleBuffer;
pub use codec::{decode, encode};
pub use transport::{accept_datagram, take_datagram, MAX_DATAGRAM_LEN};
