//! Error kinds of the VRF engine.

use vstd::prelude::*;

verus! {

/// Every failure the library reports; all operations return explicit
/// results and never fault.
#[derive(Clone, Copy, Debug, PartialEq, Eq, Structural)]
pub enum Error {
    /// The supplied secret key does not reproduce the engine's public key.
    InvalidSecretKey,
    /// The recomputed challenge does not match the proof's challenge.
    ProofVerificationError,
    /// A point or scalar encoding was malformed.
    SerializationError,
    /// The curve mapping could not produce a point; with consistent curve
    /// parameters this never happens.
    CurveMappingError,
}

impl Error {
    /// A short description, in place of a `Display` implementation.
    pub fn describe(&self) -> (r: &'static str) {
        match self {
            Error::InvalidSecretKey => "invalid secret key",
            Error::ProofVerificationError => "proof verification failed",
            Error::SerializationError => "serialization failed",
            Error::CurveMappingError => "curve mapping failed",
        }
    }
}

} // verus!
