use vstd::prelude::*;

pub mod prover;
pub mod verifier_engine;

verus! {

/// The interactive sum-check protocol: the prover- and verifier-side
/// engines hang off this one type, as the two halves of one protocol.
pub struct IPForSumCheck;

} // verus!
