//! Trusted entry points into the AEAD, key-agreement and randomness crates.
use vstd::prelude::*;
use aes_gcm::aead::Aead;
use aes_gcm::aead::rand_core::RngCore;
use aes_gcm::KeyInit;

verus! {

/// Largest plaintext AES-256-GCM accepts (`aes_gcm::P_MAX`).
pub const GCM_MAX_PLAINTEXT: u64 = 68719476736;

/// Largest ciphertext, tag included, that AES-256-GCM will try to open
/// (`aes_gcm::C_MAX` plus the tag).
pub const GCM_MAX_CIPHERTEXT: u64 = 68719476768;

/// AES-256-GCM encryption of `pt` under `key` and `nonce`, tag appended.
pub uninterp spec fn gcm_seal(key: Seq<u8>, nonce: Seq<u8>, pt: Seq<u8>) -> Seq<u8>;

/// X25519: the u-coordinate of the clamped scalar `secret` times `point`.
pub uninterp spec fn x25519(secret: Seq<u8>, point: Seq<u8>) -> Seq<u8>;

/// The X25519 public key of a 32-byte secret scalar.
pub uninterp spec fn x25519_public(secret: Seq<u8>) -> Seq<u8>;

/// Whether a 32-byte shared secret is all zeros (a non-contributory exchange).
pub open spec fn is_all_zero(s: Seq<u8>) -> bool {
    forall|i: int| 0 <= i < s.len() ==> s[i] == 0u8
}

/// Relies on `aes_gcm::Aes256Gcm::encrypt` (via `aead::Aead`): it fails exactly
/// when the plaintext exceeds `P_MAX`, and otherwise returns the deterministic
/// ciphertext (keystream-masked plaintext followed by a 16-byte tag), from
/// which the plaintext is the only one to seal to it under the same key and
/// nonce.
#[verifier::external_body]
pub(crate) fn gcm_encrypt(key: &[u8], nonce: &[u8], pt: &[u8]) -> (r: Option<Vec<u8>>)
    requires
        key@.len() == 32,
        nonce@.len() == 12,
    ensures
        r is Some <==> pt@.len() <= GCM_MAX_PLAINTEXT,
        r is Some ==> r->0@ == gcm_seal(key@, nonce@, pt@),
        r is Some ==> r->0@.len() == pt@.len() + 16,
        r is Some ==> forall|q: Seq<u8>| #[trigger] gcm_seal(key@, nonce@, q) == r->0@ ==> q == pt@,
{
    let cipher = aes_gcm::Aes256Gcm::new(aes_gcm::Key::<aes_gcm::Aes256Gcm>::from_slice(key));
    cipher.encrypt(aes_gcm::Nonce::from_slice(nonce), pt).ok()
}

/// Relies on `aes_gcm::Aes256Gcm::decrypt` (via `aead::Aead`): it refuses a
/// ciphertext beyond `C_MAX` plus the tag, and otherwise recomputes the tag
/// and returns the plaintext exactly when `ct` is the encryption of one under
/// `key` and `nonce`.
#[verifier::external_body]
pub(crate) fn gcm_decrypt(key: &[u8], nonce: &[u8], ct: &[u8]) -> (r: Option<Vec<u8>>)
    requires
        key@.len() == 32,
        nonce@.len() == 12,
    ensures
        r is Some ==> gcm_seal(key@, nonce@, r->0@) == ct@,
        ct@.len() > GCM_MAX_CIPHERTEXT ==> r is None,
        forall|p: Seq<u8>|
            ct@.len() <= GCM_MAX_CIPHERTEXT && #[trigger] gcm_seal(key@, nonce@, p) == ct@
                ==> r is Some && r->0@ == p,
{
    let cipher = aes_gcm::Aes256Gcm::new(aes_gcm::Key::<aes_gcm::Aes256Gcm>::from_slice(key));
    cipher.decrypt(aes_gcm::Nonce::from_slice(nonce), ct).ok()
}

/// Relies on `x25519_dalek::PublicKey::from(&StaticSecret)`: the clamped
/// secret times the base point (`mul_base_clamped`). Since
/// `StaticSecret::diffie_hellman` multiplies the peer's point by the clamped
/// secret (`mul_clamped`), any other secret `o` agrees with this one:
/// `x25519(o, public) == x25519(secret, public_of(o))`, as the crate's
/// README example checks.
#[verifier::external_body]
pub(crate) fn public_key(secret: &[u8; 32]) -> (r: [u8; 32])
    ensures
        r@ == x25519_public(secret@),
        forall|o: Seq<u8>|
            o.len() == 32 ==> #[trigger] x25519(o, r@) == x25519(secret@, x25519_public(o)),
{
    let s = x25519_dalek::StaticSecret::from(*secret);
    x25519_dalek::PublicKey::from(&s).to_bytes()
}

/// Relies on `x25519_dalek::StaticSecret::diffie_hellman`: the X25519 shared
/// secret of `secret` and `public`.
#[verifier::external_body]
pub(crate) fn shared_secret(secret: &[u8; 32], public: &[u8; 32]) -> (r: [u8; 32])
    ensures
        r@ == x25519(secret@, public@),
{
    let s = x25519_dalek::StaticSecret::from(*secret);
    s.diffie_hellman(&x25519_dalek::PublicKey::from(*public)).to_bytes()
}

/// Fills a buffer from the operating system's secure random generator
/// (`OsRng::fill_bytes` of `rand_core`, as re-exported by `aes_gcm`).
/// Nothing is known of the bytes.
#[verifier::external_body]
pub fn rand_buf<const SIZE: usize>() -> (r: [u8; SIZE])
{
    let mut buf = [0u8; SIZE];
    aes_gcm::aead::OsRng.fill_bytes(&mut buf);
    buf
}

/// Whether every byte of a shared secret is zero.
pub fn all_zero(s: &[u8; 32]) -> (r: bool)
    ensures
        r == is_all_zero(s@),
{
    let mut i: usize = 0;
    while i < 32
        invariant
            0 <= i <= 32,
            s@.len() == 32,
            forall|j: int| 0 <= j < i ==> s@[j] == 0u8,
        decreases 32 - i,
    {
        if s[i] != 0 {
            return false;
        }
        i = i + 1;
    }
    true
}

} // verus!
