//! A small network store for tagged binary payloads ("iotas").
//!
//! The library holds the verified core of the server: the document model
//! and its sanitizer, the pattern-key utilities, the wire codec for the
//! message envelope, the capability-gated keyed store with expiry, and the
//! per-packet dispatcher. Transport I/O and the process wiring live outside
//! the library.

pub mod codec;
pub mod decode;
pub mod dispatch;
pub mod document;
pub mod encode;
pub mod pattern;
pub mod rng;
pub mod roundtrip;
pub mod sanitize;
pub mod store;
pub mod wire;
