//! Reasons for which a transition is rejected.

use vstd::prelude::*;

verus! {

/// Why an operation was refused. A refused operation leaves every ledger
/// and every account as it found them.
#[derive(Clone, Copy, Debug, PartialEq, Eq, Structural)]
pub enum LedgerError {
    /// The ledger has not been created yet.
    NotInitialized,
    /// The target already holds an initialized ledger.
    AlreadyInitialized,
    /// A deposit whose amount is not the pool's denomination.
    InvalidAmount,
    /// The nullifier or key image was spent before.
    AlreadyUsed,
    /// The zero-knowledge proof was not accepted.
    InvalidProof,
    /// The ring signature was not accepted, or its ring is empty.
    InvalidSignature,
    /// The commitment tree holds as many leaves as it can.
    TreeFull,
    /// An account or asset identifier is not the one the ledger expects.
    AccountMismatch,
    /// A required signer did not sign.
    MissingSignature,
    /// The paying side holds less than the amount to move.
    InsufficientCustodyBalance,
    /// Fewer accounts were supplied than the operation reads.
    NotEnoughAccounts,
    /// The bytes are not an encoding of the expected value.
    MalformedData,
    /// The account's data area is too short for the ledger's encoding.
    AccountTooSmall,
    /// A balance, counter or length would leave the range of its integer.
    Overflow,
}

/// What a transition that returns `r` did to a state: an accepted one
/// produced the expected state, a rejected one returns the expected error
/// and kept the state it found.
pub open spec fn settles<M>(
    r: Result<(), LedgerError>,
    before: M,
    after: M,
    expected: Result<M, LedgerError>,
) -> bool {
    match expected {
        Ok(next) => r is Ok && after == next,
        Err(e) => r == Err::<(), _>(e) && after == before,
    }
}

} // verus!
