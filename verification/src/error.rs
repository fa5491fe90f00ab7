//! Why an encryption or a conversion of keys fails.
use vstd::prelude::*;

verus! {

/// Why a JSON Web Key gives no secret key.
#[derive(Clone, Copy, Debug, PartialEq, Eq, Structural)]
pub enum JwkError {
    /// The key has no private part.
    MissingPrivateKey,
    /// The key is no Ed25519 key.
    KeyTypeNotImplemented,
}

/// Why an encryption or a conversion of keys fails.
#[derive(Clone, Copy, Debug, PartialEq, Eq, Structural)]
pub enum Error {
    /// A JSON Web Key cannot be used.
    JWK(JwkError),
    /// A DID that was resolved has no document, or one that names no keys for key agreement.
    UnableToGetVerificationMethod,
    /// The cipher refuses the content.
    UnableToGenerateDID,
    /// The system gives no randomness.
    NoRandomness,
}

} // verus!
