//! Error kinds surfaced by the staking engine. Each is a precondition
//! violation that aborts the whole operation with no state change.

use vstd::prelude::*;

verus! {

/// Every way an operation of the engine can refuse to run.
///
/// Each variant is raised by exactly the checks stated in the operations'
/// contracts; no error is ever downgraded or retried internally.
#[derive(Clone, Copy, Debug, PartialEq, Eq, Structural)]
pub enum CustomErrors {
    /// A derived account seed could not be resolved (raised only by the
    /// unverified account plumbing around this crate).
    EmptyBump,
    /// The vault withdrawal conditions do not hold.
    WithdrawConditions,
    /// The purchase amount is below the minimum of 10 token units.
    InvalidBuyAmount,
    /// The staking campaign was closed by a final round.
    StackingFinished,
    /// The current round window has not elapsed yet.
    RoundAlreadyStarted,
    /// A receipt is not bound to the identity that was supplied for it.
    InvalidReceiptAuthority,
    /// The receipt's validity flag is wrong for the requested operation.
    InvalidReceipt,
    /// The current time lies outside the active round window.
    NoActiveRound,
    /// No round has started at or after the receipt's stake timestamp.
    RoundStillGoing,
    /// The backer already granted tokens to this participant.
    TokensAlreadyGranted,
    /// The backer is still on the target's grant-cooldown ledger.
    GrantCooldown,
    /// A bounded grantor list is at capacity.
    GrantorsCountLimit,
    /// The grant violates the capacity, duplicate or balance-ratio rule.
    TokenGrantError,
    /// The backer has no grant entry on the target's receipt.
    GrantorNotFound,
    /// A participant has not opted into the grant program.
    GrantProgramError,
    /// The supplied grantor set does not match the receipt's grantor list.
    InvalidGrantorsList,
    /// The amount is below the minimum grant of one token unit.
    InsufficientAmount,
}

} // verus!
