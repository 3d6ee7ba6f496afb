use vstd::prelude::*;

verus! {

/// Every failure the engine reports to its callers.
#[derive(Debug, Clone, Copy, PartialEq, Eq, Structural)]
pub enum LedgerError {
    /// A month outside `1..=12`.
    InvalidMonth,
    /// Text that is not in the expected shape.
    InvalidFormat,
    /// A period range whose start lies after its end.
    InvalidRange,
    /// A decimal amount with more than two fractional digits.
    PrecisionLoss,
    /// An amount beyond the range of the underlying scaled integer.
    Overflow,
    /// A ledger entry lacks the party that its classification rule reads.
    MissingParty,
    /// A ledger entry lacks the signed amount.
    MissingAmount,
    /// No tax parameters exist for the period being assessed.
    MissingTaxParameters,
    /// A looked-up record does not exist.
    NotFound,
}

} // verus!
