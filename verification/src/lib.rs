use vstd::prelude::*;

pub mod field;
pub mod polynomial_rep;
pub mod protocol;
pub mod table;

verus! {

/// Outcome classification for a finished protocol run: a rejection is an
/// ordinary verdict on the prover's messages, a malformed message is a
/// framing bug in the driving code, and a usage error is a violation of the
/// call ordering contract.
#[derive(Clone, Copy, PartialEq, Eq, Structural, Debug)]
pub enum Error {
    /// The prover's round polynomial is inconsistent with the prior claim.
    Reject,
    /// A recorded prover message does not carry exactly d + 1 evaluations.
    MalformedMessage,
    /// `prove_round` was driven out of order (challenge present on the first
    /// round, or absent on a later one, or a round past the last).
    UsageError,
}

impl Error {
    /// A human-readable reason for the failure.
    pub fn reason(&self) -> &'static str {
        match self {
            Error::Reject => "Prover message is not consistent with the claim.",
            Error::MalformedMessage => "incorrect number of evaluations",
            Error::UsageError => "prover rounds must alternate with verifier challenges",
        }
    }
}

} // verus!
