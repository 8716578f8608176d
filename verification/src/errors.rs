//! Error kinds of the staking engine. Every error aborts the whole
//! operation: a call either applies all of its effects or none.

use vstd::prelude::*;

verus! {

/// Why a staking operation was rejected. Each variant is terminal for the
/// triggering call; no partial mutation is ever left behind.
#[derive(Clone, Copy, Debug, PartialEq, Eq, Structural)]
pub enum ErrorCode {
    /// `stake` was called with a zero amount.
    NoTokens,
    /// The tier selector names no row of the lock policy table.
    InvalidLockingPeriod,
    /// `claim_reward` or `unstake` was called on an inactive position.
    NotStaked,
    /// `unstake` was attempted before the lock expired.
    LockedError,
    /// The unstake amount was zero or above the staked principal.
    InvalidUnstakeAmount,
    /// A checked arithmetic operation would have overflowed.
    ArithmeticOverflow,
    /// A reward payout exceeds the reward reserve.
    InsufficientReserve,
    /// A principal payout exceeds the stake vault balance.
    InsufficientVaultBalance,
}

} // verus!
