//! The lock policy table: a fixed mapping from a tier selector to the
//! annual reward rate and the lock duration bought by choosing that tier.
//! Rate and duration both grow strictly with the tier.

use vstd::prelude::*;

use crate::errors::ErrorCode;

verus! {

/// Denominator of the reward rate: a rate of `r` pays `r / 100` of the
/// principal per full year of elapsed time.
pub const BASIS_POINTS_DENOMINATOR: u64 = 100;

/// Seconds in one year (365 days).
pub const SECONDS_PER_YEAR: u64 = 31_536_000;

/// Annual reward rates by tier, over `BASIS_POINTS_DENOMINATOR`.
pub const APR_ONE_YEAR: u64 = 15;

pub const APR_TWO_YEARS: u64 = 30;

pub const APR_THREE_YEARS: u64 = 60;

pub const APR_FOUR_YEARS: u64 = 120;

/// Lock durations by tier, in seconds.
pub const LOCK_ONE_YEAR: u64 = SECONDS_PER_YEAR;

pub const LOCK_TWO_YEARS: u64 = 2 * SECONDS_PER_YEAR;

pub const LOCK_THREE_YEARS: u64 = 3 * SECONDS_PER_YEAR;

pub const LOCK_FOUR_YEARS: u64 = 4 * SECONDS_PER_YEAR;

/// The tier selectors the policy table knows.
pub open spec fn valid_tier(tier: u8) -> bool {
    1 <= tier <= 4
}

/// Annual rate bought by a valid tier.
pub open spec fn spec_tier_apr(tier: u8) -> u64 {
    if tier == 1 {
        APR_ONE_YEAR
    } else if tier == 2 {
        APR_TWO_YEARS
    } else if tier == 3 {
        APR_THREE_YEARS
    } else {
        APR_FOUR_YEARS
    }
}

/// Lock duration in seconds bought by a valid tier.
pub open spec fn spec_tier_duration(tier: u8) -> u64 {
    if tier == 1 {
        LOCK_ONE_YEAR
    } else if tier == 2 {
        LOCK_TWO_YEARS
    } else if tier == 3 {
        LOCK_THREE_YEARS
    } else {
        LOCK_FOUR_YEARS
    }
}

/// Looks a tier up in the policy table. A valid tier yields its
/// `(rate, lock duration)` row; any other selector is rejected before any
/// state could be touched.
pub fn lock_policy(tier: u8) -> (r: Result<(u64, u64), ErrorCode>)
    ensures
        valid_tier(tier) ==> r == Ok::<(u64, u64), ErrorCode>(
            (spec_tier_apr(tier), spec_tier_duration(tier)),
        ),
        !valid_tier(tier) ==> r == Err::<(u64, u64), ErrorCode>(ErrorCode::InvalidLockingPeriod),
{
    match tier {
        1 => Ok((APR_ONE_YEAR, LOCK_ONE_YEAR)),
        2 => Ok((APR_TWO_YEARS, LOCK_TWO_YEARS)),
        3 => Ok((APR_THREE_YEARS, LOCK_THREE_YEARS)),
        4 => Ok((APR_FOUR_YEARS, LOCK_FOUR_YEARS)),
        _ => Err(ErrorCode::InvalidLockingPeriod),
    }
}

/// A higher tier buys a strictly higher rate and a strictly longer lock.
pub proof fn lemma_policy_monotonic_in_tier(t1: u8, t2: u8)
    requires
        valid_tier(t1),
        valid_tier(t2),
        t1 < t2,
    ensures
        spec_tier_apr(t1) < spec_tier_apr(t2),
        spec_tier_duration(t1) < spec_tier_duration(t2),
{
}

} // verus!
