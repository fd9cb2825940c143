//! The errors that the library reports.

use vstd::prelude::*;

verus! {

/// What can go wrong while a fingerprint is computed.
#[derive(Clone, Copy, Debug, PartialEq, Eq, Structural)]
pub enum FingerprintError {
    /// A bank identifier of the wrong length, a currency that is unknown
    /// or special, or a transaction that lacks a part.
    InvalidInput,
    /// A date before the epoch, or a day count that is zero or too large.
    InvalidDate,
    /// A compact string that is not base58, or that does not spell
    /// exactly 32 bytes where a field element is read.
    CompactDecodeError,
    /// Thirty-two bytes that stand for a number outside the field.
    FieldDecodeError,
    /// An agent of the quorum did not answer.
    AgentUnavailable(u64),
    /// Fewer agents than the threshold are known.
    QuorumNotMet,
    /// A condition that the arithmetic should never meet.
    Internal,
}

impl FingerprintError {
    /// The text of `message`.
    pub open spec fn text(self) -> Seq<char> {
        match self {
            FingerprintError::InvalidInput => "invalid input"@,
            FingerprintError::InvalidDate => "date cannot be earlier than the epoch, 2025-01-01"@,
            FingerprintError::CompactDecodeError => "malformed compact string"@,
            FingerprintError::FieldDecodeError => "value does not represent a field element"@,
            FingerprintError::AgentUnavailable(_) => "agent unavailable"@,
            FingerprintError::QuorumNotMet => "quorum not met"@,
            FingerprintError::Internal => "internal error"@,
        }
    }

    /// A short description.
    pub fn message(&self) -> (r: &'static str)
        ensures
            r@ == self.text(),
    {
        match self {
            FingerprintError::InvalidInput => "invalid input",
            FingerprintError::InvalidDate => "date cannot be earlier than the epoch, 2025-01-01",
            FingerprintError::CompactDecodeError => "malformed compact string",
            FingerprintError::FieldDecodeError => "value does not represent a field element",
            FingerprintError::AgentUnavailable(_) => "agent unavailable",
            FingerprintError::QuorumNotMet => "quorum not met",
            FingerprintError::Internal => "internal error",
        }
    }
}

} // verus!
