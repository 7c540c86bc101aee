//! The ways an operation on the ledger can be refused.

use vstd::prelude::*;

verus! {

/// Why an operation was refused. A refused operation leaves the ledger as
/// it was.
#[derive(Clone, Copy, Debug, PartialEq, Eq, Structural)]
pub enum LockupError {
    /// A schedule breaks its shape rules or does not add up to the expected total.
    ScheduleInvalid,
    /// The lockup schedule releases more than the vesting schedule at this timestamp.
    ScheduleOrderingViolation { timestamp: u32 },
    /// A new grant must start with nothing claimed.
    ClaimedBalanceNotZero,
    /// A draft must grant a positive balance.
    ZeroTotalBalance,
    /// The lockup cannot be terminated (never terminable, or terminated already).
    NoTerminationConfig,
    /// The vesting schedule is committed by hash and has to be revealed.
    RevealRequired,
    /// The revealed schedule does not match the committed hash.
    CommitmentMismatch,
    /// A termination cannot take effect before the present time.
    InvalidTerminationTimestamp,
    /// The claim would take more than is unlocked.
    ClaimExceedsUnlocked { index: u32 },
    /// A checked addition would wrap.
    ArithmeticOverflow,
    /// An internal consistency guard.
    InvariantViolation,
    /// The caller lacks the role that the operation asks for.
    NotAuthorized,
    LockupNotFound,
    DraftNotFound,
    DraftGroupNotFound,
    /// The draft group has been discarded.
    DraftGroupDiscarded,
    /// The draft group has been funded already.
    DraftGroupFunded,
    /// The draft group has not been funded yet.
    DraftGroupNotFunded,
    /// Drafts can be deleted only from a discarded group.
    DraftGroupNotDiscarded,
    /// The transferred amount differs from what the operation needs.
    AmountMismatch,
    /// The deposit whitelist may not become empty.
    EmptyWhitelist,
    /// A lockup appears twice in one claim.
    DuplicateLockupIndex,
    /// Neither an account nor a list of accounts was given.
    AccountRequired,
    /// The transfer came from another token than the one this ledger holds.
    UnknownToken,
}

} // verus!
