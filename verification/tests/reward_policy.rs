use token_staking::errors::ErrorCode;
use token_staking::policy::lock_policy;
use token_staking::policy::BASIS_POINTS_DENOMINATOR;
use token_staking::policy::SECONDS_PER_YEAR;
use token_staking::reward::compute_reward;

#[test]
fn constants_match_the_rate_model() {
    assert_eq!(BASIS_POINTS_DENOMINATOR, 100);
    assert_eq!(SECONDS_PER_YEAR, 31_536_000);
}

#[test]
fn policy_rows_by_tier() {
    assert_eq!(lock_policy(1), Ok((15, 31_536_000)));
    assert_eq!(lock_policy(2), Ok((30, 63_072_000)));
    assert_eq!(lock_policy(3), Ok((60, 94_608_000)));
    assert_eq!(lock_policy(4), Ok((120, 126_144_000)));
}

#[test]
fn policy_rejects_unknown_tiers() {
    assert_eq!(lock_policy(0), Err(ErrorCode::InvalidLockingPeriod));
    assert_eq!(lock_policy(5), Err(ErrorCode::InvalidLockingPeriod));
    assert_eq!(lock_policy(255), Err(ErrorCode::InvalidLockingPeriod));
}

#[test]
fn policy_grows_with_the_tier() {
    let mut last_apr = 0;
    let mut last_lock = 0;
    for tier in 1..=4u8 {
        let (apr, lock) = lock_policy(tier).unwrap();
        assert!(apr > last_apr);
        assert!(lock > last_lock);
        last_apr = apr;
        last_lock = lock;
    }
}

#[test]
fn reward_exact_full_year() {
    // One full year of 1_000_000 units at a 30 / 100 annual rate.
    assert_eq!(compute_reward(31_536_000, 1_000_000, 30), Ok(300_000));
}

#[test]
fn reward_exact_half_year() {
    assert_eq!(compute_reward(15_768_000, 1_000_000, 15), Ok(75_000));
}

#[test]
fn reward_zero_elapsed_is_zero() {
    assert_eq!(compute_reward(0, 1_000_000, 120), Ok(0));
}

#[test]
fn reward_zero_principal_is_zero() {
    assert_eq!(compute_reward(31_536_000, 0, 120), Ok(0));
}

#[test]
fn reward_rounds_down() {
    // 999 units for a year at 15 / 100 is 149.85: paid as 149.
    assert_eq!(compute_reward(31_536_000, 999, 15), Ok(149));
    // A single second on a single unit earns nothing.
    assert_eq!(compute_reward(1, 1, 120), Ok(0));
}

#[test]
fn reward_monotonic_in_time() {
    let early = compute_reward(10_000_000, 123_456, 60).unwrap();
    let late = compute_reward(20_000_000, 123_456, 60).unwrap();
    assert!(early <= late);
}

#[test]
fn reward_monotonic_in_principal() {
    let small = compute_reward(10_000_000, 123_456, 60).unwrap();
    let large = compute_reward(10_000_000, 223_456, 60).unwrap();
    assert!(small <= large);
}

#[test]
fn reward_overflow_is_reported() {
    assert_eq!(
        compute_reward(u64::MAX, u64::MAX, u64::MAX),
        Err(ErrorCode::ArithmeticOverflow)
    );
}

#[test]
fn reward_widened_domain_survives_large_inputs() {
    // Large but payable: the intermediate product exceeds 64 bits, the
    // result does not.
    let principal = 1_000_000_000_000u64;
    let expected = principal / 100 * 15;
    assert_eq!(compute_reward(31_536_000, principal, 15), Ok(expected));
}
