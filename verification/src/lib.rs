//! BitSparrow: a compact binary serialization codec.
//!
//! An [`Encoder`] linearizes typed values into a byte buffer and a
//! [`Decoder`] reconstructs them in the exact order they were written.
//! The wire format is fixed big-endian, frames every variable-length
//! payload with a self-terminating variable-length size prefix, and
//! packs runs of consecutive booleans into shared bytes.
//!
//! The `wire` module is the mathematical model of the format: every
//! contract on the encoder and decoder is stated against it, and the
//! `laws` module proves the round-trip laws once and for all.

pub mod decode;
pub mod encode;
pub mod error;
pub mod laws;
pub mod wire;

pub use decode::BitDecode;
pub use decode::Decoder;
pub use encode::BitEncode;
pub use encode::Encoder;
pub use error::Error;
