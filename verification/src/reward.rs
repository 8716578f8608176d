//! The reward accrual calculator: a pure function of the elapsed time, the
//! staked principal and the annual rate. Division rounds down, so the
//! reserve is never over-paid for a given second of elapsed time.

use vstd::prelude::*;
use vstd::arithmetic::div_mod::lemma_div_is_ordered;
use vstd::arithmetic::div_mod::lemma_div_multiples_vanish;
use vstd::arithmetic::mul::lemma_mul_inequality;

use crate::errors::ErrorCode;
use crate::policy::BASIS_POINTS_DENOMINATOR;
use crate::policy::SECONDS_PER_YEAR;

verus! {

/// Divisor of the reward formula: rate denominator times seconds per year.
pub open spec fn reward_divisor() -> int {
    BASIS_POINTS_DENOMINATOR * SECONDS_PER_YEAR
}

/// The reward owed for `elapsed` seconds on `principal` units at annual rate
/// `apr`: `elapsed * apr * principal / (BASIS_POINTS_DENOMINATOR *
/// SECONDS_PER_YEAR)`, rounded down.
pub open spec fn spec_reward(elapsed: int, principal: int, apr: int) -> int {
    (elapsed * apr * principal) / reward_divisor()
}

/// Computes `spec_reward` exactly, in a widened integer domain so that no
/// intermediate product wraps. The only failure is a final value too large
/// for the result type.
pub fn compute_reward(elapsed: u64, principal: u64, apr: u64) -> (r: Result<u64, ErrorCode>)
    ensures
        spec_reward(elapsed as int, principal as int, apr as int) <= u64::MAX ==> r
            == Ok::<u64, ErrorCode>(
            spec_reward(elapsed as int, principal as int, apr as int) as u64,
        ),
        spec_reward(elapsed as int, principal as int, apr as int) > u64::MAX ==> r
            == Err::<u64, ErrorCode>(ErrorCode::ArithmeticOverflow),
{
    let e = elapsed as u128;
    let a = apr as u128;
    let p = principal as u128;
    let divisor: u128 = (BASIS_POINTS_DENOMINATOR as u128) * (SECONDS_PER_YEAR as u128);
    assert(divisor == reward_divisor());
    assert(e * a <= u128::MAX) by (nonlinear_arith)
        requires
            e <= u64::MAX,
            a <= u64::MAX,
    ;
    let ea = e * a;
    match ea.checked_mul(p) {
        Some(product) => {
            let quotient = product / divisor;
            proof {
                lemma_div_is_ordered(0, product as int, reward_divisor());
            }
            if quotient <= u64::MAX as u128 {
                Ok(quotient as u64)
            } else {
                Err(ErrorCode::ArithmeticOverflow)
            }
        },
        None => {
            proof {
                // The product exceeds the widened domain, so even after the
                // division the result is far above the result type's range.
                assert(e * a * p > u128::MAX);
                lemma_div_multiples_vanish(u64::MAX as int + 1, reward_divisor());
                lemma_div_is_ordered(
                    (u64::MAX as int + 1) * reward_divisor(),
                    e * a * p,
                    reward_divisor(),
                );
            }
            Err(ErrorCode::ArithmeticOverflow)
        },
    }
}

/// The reward never decreases when the elapsed time grows, at a fixed
/// principal and rate.
pub proof fn lemma_reward_monotonic_in_time(t1: int, t2: int, principal: int, apr: int)
    requires
        0 <= t1 <= t2,
        0 <= principal,
        0 <= apr,
    ensures
        spec_reward(t1, principal, apr) <= spec_reward(t2, principal, apr),
{
    lemma_mul_inequality(t1, t2, apr);
    lemma_mul_inequality(t1 * apr, t2 * apr, principal);
    lemma_div_is_ordered(t1 * apr * principal, t2 * apr * principal, reward_divisor());
}

/// The reward never decreases when the principal grows, at a fixed elapsed
/// time and rate.
pub proof fn lemma_reward_monotonic_in_principal(elapsed: int, p1: int, p2: int, apr: int)
    requires
        0 <= elapsed,
        0 <= p1 <= p2,
        0 <= apr,
    ensures
        spec_reward(elapsed, p1, apr) <= spec_reward(elapsed, p2, apr),
{
    assert(elapsed * apr >= 0) by (nonlinear_arith)
        requires
            0 <= elapsed,
            0 <= apr,
    ;
    assert(elapsed * apr * p1 <= elapsed * apr * p2) by (nonlinear_arith)
        requires
            elapsed * apr >= 0,
            p1 <= p2,
    ;
    lemma_div_is_ordered(elapsed * apr * p1, elapsed * apr * p2, reward_divisor());
}

/// A reward over nonnegative inputs is nonnegative.
pub proof fn lemma_reward_nonnegative(elapsed: int, principal: int, apr: int)
    requires
        0 <= elapsed,
        0 <= principal,
        0 <= apr,
    ensures
        0 <= spec_reward(elapsed, principal, apr),
{
    assert(0 <= elapsed * apr * principal) by (nonlinear_arith)
        requires
            0 <= elapsed,
            0 <= principal,
            0 <= apr,
    ;
    lemma_div_is_ordered(0, elapsed * apr * principal, reward_divisor());
}

/// Zero elapsed time earns exactly nothing.
pub proof fn lemma_reward_zero_elapsed(principal: int, apr: int)
    ensures
        spec_reward(0, principal, apr) == 0,
{
    assert(0 * apr * principal == 0) by (nonlinear_arith);
}

} // verus!
