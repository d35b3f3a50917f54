//! The errors that the prover reports.

use vstd::prelude::*;

verus! {

/// Why a proof could not be produced.
#[derive(Clone, Copy, Debug, PartialEq, Eq, Structural)]
pub enum SynthesisError {
    /// A commitment key or a table of the SRS does not match the batch size.
    MalformedSrs,
    /// The batch size is not a power of two.
    MalformedProofs,
    /// No retry of a Fiat-Shamir derivation gave a usable challenge.
    NoChallenge,
}

} // verus!
