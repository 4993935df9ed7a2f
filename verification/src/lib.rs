//! ChaCha20-Poly1305 and XChaCha20-Poly1305 authenticated encryption,
//! implemented from the RFC 8439 construction and verified: the stream
//! cipher, the one-time authenticator and the seal/open composition each
//! carry contracts that pin their results to mathematical specifications.
//!
//! Nonce uniqueness per (key, message) is the caller's responsibility: the
//! primitive is stateless and cannot enforce it.

use vstd::prelude::*;

pub mod bytes;
pub mod chacha;
pub mod aead;
pub mod poly1305;

verus! {

/// Every failure the primitive can signal. All are deterministic functions
/// of the input shape or content; `AuthenticationFailed` deliberately does
/// not say why verification failed.
#[derive(Clone, Copy, Debug, PartialEq, Eq, Structural)]
pub enum AeadError {
    InvalidKeyLength,
    InvalidNonceLength,
    CiphertextTooShort,
    AuthenticationFailed,
    MessageTooLong,
}

} // verus!
