//! Cryptographic core of a secure messaging protocol: multi-recipient
//! envelope encryption, an anonymous Noise handshake and a chunked,
//! length-prefixed encrypted transport framing.
pub mod error;
pub mod primitives;
pub mod content_box;
pub mod framing;
pub mod stream;
pub mod handshake;
pub mod context;
pub mod messaging;
