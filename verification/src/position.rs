//! A holder's staking position and its state machine. A position is either
//! inactive (the all-zero record) or active with a principal, a rate, a lock
//! expiry and the timestamp up to which rewards have already been accounted.
//!
//! Each transition is given first as a specification function over the whole
//! state, then as executable code proved to match it. Every transition is
//! atomic: it either applies all of its effects or leaves everything as it
//! was.

use vstd::prelude::*;

use crate::errors::ErrorCode;
use crate::policy::spec_tier_apr;
use crate::policy::spec_tier_duration;
use crate::policy::lock_policy;
use crate::policy::valid_tier;
use crate::reward::compute_reward;
use crate::reward::lemma_reward_nonnegative;
use crate::reward::lemma_reward_zero_elapsed;
use crate::reward::spec_reward;

verus! {

/// One holder's staking record. `is_staked == false` is the initial and
/// terminal state; an inactive position has every numeric field zero.
#[derive(Clone, Copy, Debug, PartialEq, Eq, Structural)]
pub struct StakePosition {
    /// When the most recent `stake` call took effect.
    pub staked_start_time: u64,
    /// Up to this timestamp all elapsed time has been accounted, either paid
    /// out or folded into `pending_rewards`.
    pub last_claim_time: u64,
    /// Principal may not be withdrawn before this timestamp.
    pub lock_expiry: u64,
    /// Principal currently locked.
    pub staked_amount: u64,
    /// Whether the position is active.
    pub is_staked: bool,
    /// Rewards accrued under an earlier rate, not yet paid out.
    pub pending_rewards: u64,
    /// Annual reward rate set by the tier of the most recent `stake` call.
    pub apr_bps: u64,
}

impl StakePosition {
    /// The inactive record: every field zero.
    pub open spec fn spec_inactive() -> StakePosition {
        StakePosition {
            staked_start_time: 0,
            last_claim_time: 0,
            lock_expiry: 0,
            staked_amount: 0,
            is_staked: false,
            pending_rewards: 0,
            apr_bps: 0,
        }
    }

    /// Builds the inactive record, the state of a holder who never staked.
    pub fn inactive() -> (p: StakePosition)
        ensures
            p == StakePosition::spec_inactive(),
    {
        StakePosition {
            staked_start_time: 0,
            last_claim_time: 0,
            lock_expiry: 0,
            staked_amount: 0,
            is_staked: false,
            pending_rewards: 0,
            apr_bps: 0,
        }
    }

    /// Well-formedness: an inactive position is the all-zero record, and an
    /// active one locks a positive principal.
    pub open spec fn wf(self) -> bool {
        &&& !self.is_staked ==> self == StakePosition::spec_inactive()
        &&& self.is_staked ==> self.staked_amount > 0
    }

    /// The reward earned since the last accounting point, at the current
    /// rate. Meaningful only for an active position and `now` at or after
    /// `last_claim_time`.
    pub open spec fn accrued_reward(self, now: u64) -> int {
        spec_reward(now - self.last_claim_time, self.staked_amount as int, self.apr_bps as int)
    }

    /// Everything a claim at `now` would pay: the fresh accrual plus the
    /// rewards still pending from before the last rate change.
    pub open spec fn total_payout(self, now: u64) -> int {
        self.pending_rewards + self.accrued_reward(now)
    }
}

/// The `stake` transition on one position and the stake vault balance.
/// Checks come first, in this order: a zero amount, an unknown tier, then
/// checked arithmetic; only when all pass is the state rewritten. On an
/// active position the time since `last_claim_time` is first folded into
/// `pending_rewards` at the old rate, so that the rate change cannot
/// recount it. The returned pair is the new position and the new vault
/// balance.
pub open spec fn spec_stake(
    p: StakePosition,
    vault: u64,
    amount: u64,
    tier: u8,
    now: u64,
) -> Result<(StakePosition, u64), ErrorCode> {
    if amount == 0 {
        Err(ErrorCode::NoTokens)
    } else if !valid_tier(tier) {
        Err(ErrorCode::InvalidLockingPeriod)
    } else {
        let new_pending: int = if p.is_staked {
            p.pending_rewards + p.accrued_reward(now)
        } else {
            0
        };
        if new_pending > u64::MAX {
            Err(ErrorCode::ArithmeticOverflow)
        } else if p.staked_amount + amount > u64::MAX {
            Err(ErrorCode::ArithmeticOverflow)
        } else if now + spec_tier_duration(tier) > u64::MAX {
            Err(ErrorCode::ArithmeticOverflow)
        } else if vault + amount > u64::MAX {
            Err(ErrorCode::ArithmeticOverflow)
        } else {
            Ok(
                (
                    StakePosition {
                        staked_start_time: now,
                        last_claim_time: now,
                        lock_expiry: (now + spec_tier_duration(tier)) as u64,
                        staked_amount: (p.staked_amount + amount) as u64,
                        is_staked: true,
                        pending_rewards: new_pending as u64,
                        apr_bps: spec_tier_apr(tier),
                    },
                    (vault + amount) as u64,
                ),
            )
        }
    }
}

/// The `claim_reward` transition on one position and the reward reserve
/// balance. An active position is paid its whole outstanding reward out of
/// the reserve; the accounting point moves to `now` and the pending bucket
/// empties. The returned triple is the new position, the amount paid and
/// the new reserve balance.
pub open spec fn spec_claim(
    p: StakePosition,
    reserve: u64,
    now: u64,
) -> Result<(StakePosition, u64, u64), ErrorCode> {
    if !p.is_staked {
        Err(ErrorCode::NotStaked)
    } else if p.total_payout(now) > u64::MAX {
        Err(ErrorCode::ArithmeticOverflow)
    } else if reserve < p.total_payout(now) {
        Err(ErrorCode::InsufficientReserve)
    } else {
        Ok(
            (
                StakePosition {
                    staked_start_time: p.staked_start_time,
                    last_claim_time: now,
                    lock_expiry: p.lock_expiry,
                    staked_amount: p.staked_amount,
                    is_staked: true,
                    pending_rewards: 0,
                    apr_bps: p.apr_bps,
                },
                p.total_payout(now) as u64,
                (reserve - p.total_payout(now)) as u64,
            ),
        )
    }
}

/// The `unstake` transition on one position and both pooled balances. After
/// the lock expires, a positive amount up to the staked principal is
/// released; the outstanding reward is paid exactly as a claim would pay
/// it. A full unstake drives the position back to the inactive record. The
/// returned quadruple is the new position, the reward paid, the new vault
/// balance and the new reserve balance; the released principal is `amount`
/// itself.
pub open spec fn spec_unstake(
    p: StakePosition,
    vault: u64,
    reserve: u64,
    amount: u64,
    now: u64,
) -> Result<(StakePosition, u64, u64, u64), ErrorCode> {
    if !p.is_staked {
        Err(ErrorCode::NotStaked)
    } else if now < p.lock_expiry {
        Err(ErrorCode::LockedError)
    } else if amount == 0 || amount > p.staked_amount {
        Err(ErrorCode::InvalidUnstakeAmount)
    } else if p.total_payout(now) > u64::MAX {
        Err(ErrorCode::ArithmeticOverflow)
    } else if reserve < p.total_payout(now) {
        Err(ErrorCode::InsufficientReserve)
    } else if vault < amount {
        Err(ErrorCode::InsufficientVaultBalance)
    } else {
        let remaining = (p.staked_amount - amount) as u64;
        let new_position = if remaining == 0 {
            StakePosition::spec_inactive()
        } else {
            StakePosition {
                staked_start_time: p.staked_start_time,
                last_claim_time: now,
                lock_expiry: p.lock_expiry,
                staked_amount: remaining,
                is_staked: true,
                pending_rewards: 0,
                apr_bps: p.apr_bps,
            }
        };
        Ok(
            (
                new_position,
                p.total_payout(now) as u64,
                (vault - amount) as u64,
                (reserve - p.total_payout(now)) as u64,
            ),
        )
    }
}

/// Stakes `amount` under `tier` at time `now`, depositing the amount into
/// the vault balance. Matches `spec_stake` exactly; on any error both the
/// position and the vault are left untouched.
pub fn stake_position(
    p: &mut StakePosition,
    vault: &mut u64,
    amount: u64,
    tier: u8,
    now: u64,
) -> (r: Result<(), ErrorCode>)
    requires
        old(p).wf(),
        old(p).is_staked ==> now >= old(p).last_claim_time,
    ensures
        final(p).wf(),
        (match spec_stake(*old(p), *old(vault), amount, tier, now) {
            Ok((np, nv)) => r == Ok::<(), ErrorCode>(()) && *final(p) == np && *final(vault) == nv,
            Err(e) => r == Err::<(), ErrorCode>(e) && *final(p) == *old(p) && *final(vault)
                == *old(vault),
        }),
{
    if amount == 0 {
        return Err(ErrorCode::NoTokens);
    }
    let (apr, duration) = match lock_policy(tier) {
        Ok(row) => row,
        Err(e) => {
            return Err(e);
        },
    };
    let new_pending: u64;
    if p.is_staked {
        let elapsed = now - p.last_claim_time;
        let accrued = match compute_reward(elapsed, p.staked_amount, p.apr_bps) {
            Ok(v) => v,
            Err(e) => {
                return Err(e);
            },
        };
        new_pending = match p.pending_rewards.checked_add(accrued) {
            Some(v) => v,
            None => {
                return Err(ErrorCode::ArithmeticOverflow);
            },
        };
    } else {
        new_pending = 0;
    }
    let new_amount = match p.staked_amount.checked_add(amount) {
        Some(v) => v,
        None => {
            return Err(ErrorCode::ArithmeticOverflow);
        },
    };
    let expiry = match now.checked_add(duration) {
        Some(v) => v,
        None => {
            return Err(ErrorCode::ArithmeticOverflow);
        },
    };
    let new_vault = match vault.checked_add(amount) {
        Some(v) => v,
        None => {
            return Err(ErrorCode::ArithmeticOverflow);
        },
    };
    p.staked_start_time = now;
    p.last_claim_time = now;
    p.lock_expiry = expiry;
    p.staked_amount = new_amount;
    p.is_staked = true;
    p.pending_rewards = new_pending;
    p.apr_bps = apr;
    *vault = new_vault;
    Ok(())
}

/// Pays the whole outstanding reward out of the reserve balance at time
/// `now`. Matches `spec_claim` exactly; on any error both the position and
/// the reserve are left untouched. Returns the amount paid.
pub fn claim_position(p: &mut StakePosition, reserve: &mut u64, now: u64) -> (r: Result<
    u64,
    ErrorCode,
>)
    requires
        old(p).wf(),
        old(p).is_staked ==> now >= old(p).last_claim_time,
    ensures
        final(p).wf(),
        (match spec_claim(*old(p), *old(reserve), now) {
            Ok((np, paid, nr)) => r == Ok::<u64, ErrorCode>(paid) && *final(p) == np
                && *final(reserve) == nr,
            Err(e) => r == Err::<u64, ErrorCode>(e) && *final(p) == *old(p) && *final(reserve)
                == *old(reserve),
        }),
{
    if !p.is_staked {
        return Err(ErrorCode::NotStaked);
    }
    let elapsed = now - p.last_claim_time;
    let accrued = match compute_reward(elapsed, p.staked_amount, p.apr_bps) {
        Ok(v) => v,
        Err(e) => {
            return Err(e);
        },
    };
    let total = match p.pending_rewards.checked_add(accrued) {
        Some(v) => v,
        None => {
            return Err(ErrorCode::ArithmeticOverflow);
        },
    };
    if *reserve < total {
        return Err(ErrorCode::InsufficientReserve);
    }
    p.last_claim_time = now;
    p.pending_rewards = 0;
    *reserve = *reserve - total;
    Ok(total)
}

/// Releases `amount` of principal from the vault balance and pays the
/// outstanding reward from the reserve balance at time `now`. Matches
/// `spec_unstake` exactly; on any error the position and both balances are
/// left untouched. Returns the reward paid; the principal released is
/// `amount` itself.
pub fn unstake_position(
    p: &mut StakePosition,
    vault: &mut u64,
    reserve: &mut u64,
    amount: u64,
    now: u64,
) -> (r: Result<u64, ErrorCode>)
    requires
        old(p).wf(),
        old(p).is_staked ==> now >= old(p).last_claim_time,
    ensures
        final(p).wf(),
        (match spec_unstake(*old(p), *old(vault), *old(reserve), amount, now) {
            Ok((np, paid, nv, nr)) => r == Ok::<u64, ErrorCode>(paid) && *final(p) == np
                && *final(vault) == nv && *final(reserve) == nr,
            Err(e) => r == Err::<u64, ErrorCode>(e) && *final(p) == *old(p) && *final(vault)
                == *old(vault) && *final(reserve) == *old(reserve),
        }),
{
    if !p.is_staked {
        return Err(ErrorCode::NotStaked);
    }
    if now < p.lock_expiry {
        return Err(ErrorCode::LockedError);
    }
    if amount == 0 || amount > p.staked_amount {
        return Err(ErrorCode::InvalidUnstakeAmount);
    }
    let elapsed = now - p.last_claim_time;
    let accrued = match compute_reward(elapsed, p.staked_amount, p.apr_bps) {
        Ok(v) => v,
        Err(e) => {
            return Err(e);
        },
    };
    let total = match p.pending_rewards.checked_add(accrued) {
        Some(v) => v,
        None => {
            return Err(ErrorCode::ArithmeticOverflow);
        },
    };
    if *reserve < total {
        return Err(ErrorCode::InsufficientReserve);
    }
    if *vault < amount {
        return Err(ErrorCode::InsufficientVaultBalance);
    }
    let remaining = p.staked_amount - amount;
    if remaining == 0 {
        *p = StakePosition::inactive();
    } else {
        p.staked_amount = remaining;
        p.last_claim_time = now;
        p.pending_rewards = 0;
    }
    *vault = *vault - amount;
    *reserve = *reserve - total;
    Ok(total)
}

/// A second claim with no time elapsed pays nothing: after a successful
/// claim at `now`, claiming again at the same `now` succeeds, pays zero,
/// and leaves the position (its principal included) and the reserve exactly
/// as the first claim left them.
pub proof fn lemma_claim_twice_pays_zero(p: StakePosition, reserve: u64, now: u64)
    requires
        p.wf(),
        spec_claim(p, reserve, now) is Ok,
    ensures
        ({
            let (p1, paid1, reserve1) = spec_claim(p, reserve, now)->Ok_0;
            spec_claim(p1, reserve1, now) == Ok::<(StakePosition, u64, u64), ErrorCode>(
                (p1, 0u64, reserve1),
            )
        }),
{
    let (p1, paid1, reserve1) = spec_claim(p, reserve, now)->Ok_0;
    lemma_reward_zero_elapsed(p1.staked_amount as int, p1.apr_bps as int);
    assert(p1.total_payout(now) == 0);
}

/// A full unstake drives the position to the exact inactive defaults: the
/// all-zero record.
pub proof fn lemma_full_unstake_goes_inactive(
    p: StakePosition,
    vault: u64,
    reserve: u64,
    now: u64,
)
    requires
        spec_unstake(p, vault, reserve, p.staked_amount, now) is Ok,
    ensures
        spec_unstake(p, vault, reserve, p.staked_amount, now)->Ok_0.0
            == StakePosition::spec_inactive(),
{
}

/// Re-staking after a claim folds only the still-unclaimed time into the
/// pending bucket, at the rate that was in force before the new tier took
/// effect: a claim at `t1` followed by a successful stake at `t2` leaves
/// exactly the reward for `t2 - t1` seconds of the old principal at the old
/// rate pending. No second of elapsed time is counted twice across the rate
/// change.
pub proof fn lemma_restake_folds_only_unclaimed_time(
    p: StakePosition,
    reserve: u64,
    vault: u64,
    amount: u64,
    tier: u8,
    t1: u64,
    t2: u64,
)
    requires
        p.wf(),
        t1 <= t2,
        spec_claim(p, reserve, t1) is Ok,
        spec_stake(spec_claim(p, reserve, t1)->Ok_0.0, vault, amount, tier, t2) is Ok,
    ensures
        spec_stake(spec_claim(p, reserve, t1)->Ok_0.0, vault, amount, tier, t2)->Ok_0.0
            .pending_rewards == spec_reward(t2 - t1, p.staked_amount as int, p.apr_bps as int),
{
    let p1 = spec_claim(p, reserve, t1)->Ok_0.0;
    lemma_reward_nonnegative(t2 - t1, p1.staked_amount as int, p1.apr_bps as int);
    assert(p1.total_payout(t2) == spec_reward(t2 - t1, p.staked_amount as int, p.apr_bps as int));
}

} // verus!
