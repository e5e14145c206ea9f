use vstd::prelude::*;

verus! {

/// The failure taxonomy of the contract.
///
/// Every mutating operation fails atomically with one of these; reads never
/// fail on missing data, they return an absent or empty result instead.
#[derive(Debug, Clone, Copy, PartialEq, Eq, Structural)]
pub enum ContractError {
    /// Malformed input: an empty or over-length string, or a non-positive page.
    ValidationError,
    /// A referenced id was absent on a write path.
    NotFoundError,
    /// The caller is neither the owner nor a validly-approved delegate.
    AuthorizationError,
    /// The attached value is below the computed storage cost or below the
    /// minimal anti-spoofing threshold.
    InsufficientPaymentError,
    /// A duplicate id was given to mint.
    AlreadyExistsError,
}

} // verus!
