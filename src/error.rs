use vstd::prelude::*;

verus! {

/// The failures that the operations of this crate report.
#[derive(Debug, Clone, Copy, PartialEq, Eq, Structural)]
pub enum Error {
    /// An AEAD operation failed: tag mismatch (tampering, wrong key,
    /// desynchronised counters) or an input beyond the cipher's limits.
    CryptoFailure,
    /// A Diffie-Hellman computation produced the all-zero shared secret,
    /// i.e. the peer's public key was a low-order point.
    KeyAgreementFailure,
    /// The decoding key has no entry in an envelope's recipient map.
    NotARecipient,
    /// A payload could not be serialized.
    SerializationFailure,
    /// Recovered bytes could not be deserialized.
    DeserializationFailure,
    /// A malformed handshake message or length prefix.
    ProtocolViolation,
    /// The underlying byte stream failed or closed early.
    ConnectionFailure,
    /// The operation was attempted in a state that does not allow it.
    InvalidState,
}

} // verus!
