//! Zero-knowledge range proofs over the BLS12-381 scalar field: Pedersen
//! vector commitments, range-proof polynomials, and a logarithmic-size
//! inner-product argument, with Fiat-Shamir challenges derived from a
//! byte transcript.

use vstd::prelude::*;

pub mod scalar;
pub mod group;
pub mod vector;
pub mod commitment;
pub mod generators;
pub mod transcript;
pub mod poly;
pub mod ipa;
pub mod range;
pub mod interop;
pub mod wire;

verus! {

/// How a proof construction or verification can fail. A verification
/// that runs to completion and finds the equations false is not an
/// error: it is the boolean outcome `false`.
#[derive(Clone, Copy, Debug, PartialEq, Eq, Structural)]
pub enum RangeProofError {
    /// A size that must be a power of two (or nonzero) is not.
    InvalidSize,
    /// Two vectors that must have equal length do not.
    LengthMismatch,
    /// A Fiat-Shamir challenge landed on a forbidden value even after
    /// every retry nonce.
    DegenerateChallenge,
    /// A proof whose shape does not fit the claimed bit width.
    ProofMalformed,
}

} // verus!
