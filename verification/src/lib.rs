//! A zero-copy binary composite codec. A dynamic composite starts with a
//! little-endian 32-bit total-length prefix and a table of 32-bit field
//! offsets ending in a sentinel; decoding validates the whole structure
//! once, so every later field access is in bounds by construction. The
//! deposition lock arguments composite exposes its fixed-width cancellation
//! timeout field as raw bytes or as a 64-bit scalar, and hex-encoded input
//! is accepted at the parsing entry point.

pub mod bytes;
pub mod composite;
pub mod deposition;
pub mod error;
