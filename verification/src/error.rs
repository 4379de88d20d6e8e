//! Why an operation of the ledger was refused.

use vstd::prelude::*;

verus! {

/// A draft or a payment that fails a rule of election creation.
#[derive(Debug, Clone, Copy, PartialEq, Eq, Structural)]
pub enum ValidationError {
    /// Fewer than two candidates.
    CandidateCountLow,
    /// More candidates than the limit allows.
    CandidateCountHigh,
    /// The election would start now or in the past.
    StartNotFuture,
    /// The election would end when it starts, or before.
    StartNotBeforeEnd,
    /// The payment is not exactly the creation fee.
    PaymentMismatch,
}

/// A refusal. Every refusal leaves the ledger as it was.
#[derive(Debug, Clone, Copy, PartialEq, Eq, Structural)]
pub enum ElectionError {
    /// The caller is not the owner.
    Authorization,
    /// The organization has no entry in the registry.
    NotRegistered,
    /// The draft or the payment breaks a rule.
    Validation(ValidationError),
    /// No election is stored under the key.
    NotFound,
    /// The election has not started yet.
    NotStarted,
    /// The election has ended.
    Ended,
    /// The voter has already cast a ballot in this election.
    AlreadyVoted,
}

/// The sentence that goes with each refusal.
pub open spec fn message_text(error: ElectionError) -> Seq<char> {
    match error {
        ElectionError::Authorization => "Only owner can register new organizations"@,
        ElectionError::NotRegistered => "Account is not registered as a valid organization."@,
        ElectionError::Validation(ValidationError::CandidateCountLow) => "More than one candidate should be provided"@,
        ElectionError::Validation(ValidationError::CandidateCountHigh) => "Maximum 256 candidates expected"@,
        ElectionError::Validation(ValidationError::StartNotFuture) => "Start should be in the future"@,
        ElectionError::Validation(ValidationError::StartNotBeforeEnd) => "Start should be before end"@,
        ElectionError::Validation(ValidationError::PaymentMismatch) => "Create election is paid function. Expects to receive exactly 1 NEAR"@,
        ElectionError::NotFound => "Election not found"@,
        ElectionError::NotStarted => "Election not started yet"@,
        ElectionError::Ended => "Election already ended"@,
        ElectionError::AlreadyVoted => "User already voted"@,
    }
}

impl ElectionError {
    /// The sentence that tells a caller why the operation was refused.
    pub fn message(&self) -> (text: &'static str)
        ensures
            text@ == message_text(*self),
    {
        match self {
            ElectionError::Authorization => "Only owner can register new organizations",
            ElectionError::NotRegistered => "Account is not registered as a valid organization.",
            ElectionError::Validation(ValidationError::CandidateCountLow) => "More than one candidate should be provided",
            ElectionError::Validation(ValidationError::CandidateCountHigh) => "Maximum 256 candidates expected",
            ElectionError::Validation(ValidationError::StartNotFuture) => "Start should be in the future",
            ElectionError::Validation(ValidationError::StartNotBeforeEnd) => "Start should be before end",
            ElectionError::Validation(ValidationError::PaymentMismatch) => "Create election is paid function. Expects to receive exactly 1 NEAR",
            ElectionError::NotFound => "Election not found",
            ElectionError::NotStarted => "Election not started yet",
            ElectionError::Ended => "Election already ended",
            ElectionError::AlreadyVoted => "User already voted",
        }
    }
}

} // verus!
