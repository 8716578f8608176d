use token_staking::engine::StakingEngine;
use token_staking::errors::ErrorCode;
use token_staking::position::stake_position;
use token_staking::position::unstake_position;
use token_staking::position::StakePosition;

const HOLDER: u64 = 9;
const OTHER: u64 = 11;
const YEAR: u64 = 31_536_000;

fn inactive() -> StakePosition {
    StakePosition {
        staked_start_time: 0,
        last_claim_time: 0,
        lock_expiry: 0,
        staked_amount: 0,
        is_staked: false,
        pending_rewards: 0,
        apr_bps: 0,
    }
}

#[test]
fn initialize_is_empty() {
    let engine = StakingEngine::initialize();
    assert_eq!(engine.positions.len(), 0);
    assert_eq!(engine.stake_vault, 0);
    assert_eq!(engine.reward_reserve, 0);
    assert_eq!(engine.get_position(HOLDER), inactive());
}

#[test]
fn stake_creates_an_active_position() {
    let mut engine = StakingEngine::initialize();
    assert_eq!(engine.stake(HOLDER, 1_000, 2, 50), Ok(()));
    let p = engine.get_position(HOLDER);
    assert!(p.is_staked);
    assert_eq!(p.staked_amount, 1_000);
    assert_eq!(p.apr_bps, 30);
    assert_eq!(p.staked_start_time, 50);
    assert_eq!(p.last_claim_time, 50);
    assert_eq!(p.lock_expiry, 50 + 2 * YEAR);
    assert_eq!(p.pending_rewards, 0);
    assert_eq!(engine.stake_vault, 1_000);
}

#[test]
fn claim_pays_the_exact_yearly_reward() {
    let mut engine = StakingEngine::initialize();
    assert_eq!(engine.fund_reserve(400_000), Ok(()));
    assert_eq!(engine.stake(HOLDER, 1_000_000, 2, 0), Ok(()));
    assert_eq!(engine.claim_reward(HOLDER, YEAR), Ok(300_000));
    let p = engine.get_position(HOLDER);
    assert_eq!(p.pending_rewards, 0);
    assert_eq!(p.last_claim_time, YEAR);
    assert_eq!(p.staked_amount, 1_000_000);
    assert_eq!(engine.reward_reserve, 100_000);
    assert_eq!(engine.stake_vault, 1_000_000);
}

#[test]
fn second_claim_without_elapsed_time_pays_zero() {
    let mut engine = StakingEngine::initialize();
    engine.fund_reserve(400_000).unwrap();
    engine.stake(HOLDER, 1_000_000, 2, 0).unwrap();
    assert_eq!(engine.claim_reward(HOLDER, YEAR), Ok(300_000));
    let before = engine.get_position(HOLDER);
    assert_eq!(engine.claim_reward(HOLDER, YEAR), Ok(0));
    let after = engine.get_position(HOLDER);
    assert_eq!(after.staked_amount, before.staked_amount);
    assert_eq!(after, before);
    assert_eq!(engine.reward_reserve, 100_000);
}

#[test]
fn full_unstake_resets_to_inactive_defaults() {
    let mut engine = StakingEngine::initialize();
    engine.fund_reserve(100_000).unwrap();
    engine.stake(HOLDER, 500, 1, 0).unwrap();
    // A year at 15 / 100 on 500 units pays 75.
    assert_eq!(engine.unstake(HOLDER, 500, YEAR), Ok(75));
    let p = engine.get_position(HOLDER);
    assert!(!p.is_staked);
    assert_eq!(p.staked_amount, 0);
    assert_eq!(p.pending_rewards, 0);
    assert_eq!(p.lock_expiry, 0);
    assert_eq!(p, inactive());
    assert_eq!(engine.stake_vault, 0);
    assert_eq!(engine.reward_reserve, 100_000 - 75);
    // The record is kept, reset, rather than deleted.
    assert_eq!(engine.positions.len(), 1);
}

#[test]
fn partial_unstake_keeps_the_rest_locked_in() {
    let mut engine = StakingEngine::initialize();
    engine.fund_reserve(100_000).unwrap();
    engine.stake(HOLDER, 1_000, 1, 0).unwrap();
    // A year at 15 / 100 on 1_000 units pays 150.
    assert_eq!(engine.unstake(HOLDER, 400, YEAR), Ok(150));
    let p = engine.get_position(HOLDER);
    assert!(p.is_staked);
    assert_eq!(p.staked_amount, 600);
    assert_eq!(p.last_claim_time, YEAR);
    assert_eq!(p.pending_rewards, 0);
    assert_eq!(engine.stake_vault, 600);
    assert_eq!(engine.reward_reserve, 100_000 - 150);
}

#[test]
fn restake_folds_only_unclaimed_time_at_the_old_rate() {
    let mut engine = StakingEngine::initialize();
    engine.fund_reserve(1_000_000).unwrap();
    engine.stake(HOLDER, 1_000_000, 1, 0).unwrap();
    // Claim half a year in: 75_000 paid, accounting point moves.
    assert_eq!(engine.claim_reward(HOLDER, YEAR / 2), Ok(75_000));
    // Re-stake at the end of the year under a new tier: only the second
    // half-year may fold into the pending bucket, at the old 15 rate.
    assert_eq!(engine.stake(HOLDER, 1, 2, YEAR), Ok(()));
    let p = engine.get_position(HOLDER);
    assert_eq!(p.pending_rewards, 75_000);
    assert_eq!(p.apr_bps, 30);
    assert_eq!(p.staked_amount, 1_000_001);
    assert_eq!(p.last_claim_time, YEAR);
    assert_eq!(p.lock_expiry, YEAR + 2 * YEAR);
}

#[test]
fn topping_up_accrues_the_old_rate_first() {
    let mut engine = StakingEngine::initialize();
    engine.stake(HOLDER, 1_000_000, 1, 0).unwrap();
    assert_eq!(engine.stake(HOLDER, 1_000_000, 2, YEAR), Ok(()));
    let p = engine.get_position(HOLDER);
    // One year of 1_000_000 at 15 / 100 went pending before the rate rose.
    assert_eq!(p.pending_rewards, 150_000);
    assert_eq!(p.staked_amount, 2_000_000);
    assert_eq!(p.apr_bps, 30);
    assert_eq!(engine.stake_vault, 2_000_000);
}

#[test]
fn unstake_before_expiry_changes_nothing() {
    let mut engine = StakingEngine::initialize();
    engine.fund_reserve(100_000).unwrap();
    engine.stake(HOLDER, 1_000, 1, 0).unwrap();
    let position_before = engine.get_position(HOLDER);
    let vault_before = engine.stake_vault;
    let reserve_before = engine.reward_reserve;
    assert_eq!(engine.unstake(HOLDER, 1_000, YEAR - 1), Err(ErrorCode::LockedError));
    assert_eq!(engine.get_position(HOLDER), position_before);
    assert_eq!(engine.stake_vault, vault_before);
    assert_eq!(engine.reward_reserve, reserve_before);
}

#[test]
fn stake_of_zero_changes_nothing() {
    let mut engine = StakingEngine::initialize();
    assert_eq!(engine.stake(HOLDER, 0, 1, 0), Err(ErrorCode::NoTokens));
    assert_eq!(engine.positions.len(), 0);
    assert_eq!(engine.get_position(HOLDER), inactive());
    assert_eq!(engine.stake_vault, 0);
}

#[test]
fn stake_under_an_unknown_tier_changes_nothing() {
    let mut engine = StakingEngine::initialize();
    assert_eq!(engine.stake(HOLDER, 1_000, 5, 0), Err(ErrorCode::InvalidLockingPeriod));
    assert_eq!(engine.positions.len(), 0);
    assert_eq!(engine.stake_vault, 0);
}

#[test]
fn claim_and_unstake_need_an_active_position() {
    let mut engine = StakingEngine::initialize();
    assert_eq!(engine.claim_reward(HOLDER, 0), Err(ErrorCode::NotStaked));
    assert_eq!(engine.unstake(HOLDER, 1, 0), Err(ErrorCode::NotStaked));
    // A fully unstaked position is inactive again.
    engine.fund_reserve(1_000).unwrap();
    engine.stake(HOLDER, 100, 1, 0).unwrap();
    engine.unstake(HOLDER, 100, YEAR).unwrap();
    assert_eq!(engine.claim_reward(HOLDER, YEAR), Err(ErrorCode::NotStaked));
}

#[test]
fn unstake_amount_must_be_positive_and_within_principal() {
    let mut engine = StakingEngine::initialize();
    engine.fund_reserve(1_000).unwrap();
    engine.stake(HOLDER, 100, 1, 0).unwrap();
    assert_eq!(engine.unstake(HOLDER, 0, YEAR), Err(ErrorCode::InvalidUnstakeAmount));
    assert_eq!(engine.unstake(HOLDER, 101, YEAR), Err(ErrorCode::InvalidUnstakeAmount));
    assert_eq!(engine.get_position(HOLDER).staked_amount, 100);
}

#[test]
fn claim_fails_on_an_empty_reserve() {
    let mut engine = StakingEngine::initialize();
    engine.stake(HOLDER, 1_000_000, 2, 0).unwrap();
    let before = engine.get_position(HOLDER);
    assert_eq!(engine.claim_reward(HOLDER, YEAR), Err(ErrorCode::InsufficientReserve));
    assert_eq!(engine.get_position(HOLDER), before);
    // A claim that pays zero still succeeds with nothing in the reserve.
    assert_eq!(engine.claim_reward(HOLDER, 0), Ok(0));
}

#[test]
fn vault_shortfall_is_reported_at_position_level() {
    let mut position = StakePosition {
        staked_start_time: 0,
        last_claim_time: 0,
        lock_expiry: 0,
        staked_amount: 0,
        is_staked: false,
        pending_rewards: 0,
        apr_bps: 0,
    };
    let mut vault = 0u64;
    assert_eq!(stake_position(&mut position, &mut vault, 100, 1, 0), Ok(()));
    // Work against a vault that never received the deposit.
    let mut starved_vault = 0u64;
    let mut reserve = 1_000u64;
    assert_eq!(
        unstake_position(&mut position, &mut starved_vault, &mut reserve, 100, YEAR),
        Err(ErrorCode::InsufficientVaultBalance)
    );
    assert_eq!(position.staked_amount, 100);
    assert_eq!(reserve, 1_000);
}

#[test]
fn arithmetic_overflow_is_reported_and_harmless() {
    let mut engine = StakingEngine::initialize();
    // The lock expiry of any tier overflows from the far end of time.
    assert_eq!(engine.stake(HOLDER, 1, 1, u64::MAX), Err(ErrorCode::ArithmeticOverflow));
    assert_eq!(engine.positions.len(), 0);
    // The reserve balance itself is checked.
    engine.fund_reserve(u64::MAX).unwrap();
    assert_eq!(engine.fund_reserve(1), Err(ErrorCode::ArithmeticOverflow));
    assert_eq!(engine.reward_reserve, u64::MAX);
}

#[test]
fn holders_are_independent_and_the_vault_is_their_sum() {
    let mut engine = StakingEngine::initialize();
    engine.fund_reserve(1_000_000).unwrap();
    engine.stake(HOLDER, 1_000, 1, 0).unwrap();
    engine.stake(OTHER, 2_000, 2, 0).unwrap();
    assert_eq!(engine.stake_vault, 3_000);
    let other_before = engine.get_position(OTHER);
    engine.unstake(HOLDER, 1_000, YEAR).unwrap();
    assert_eq!(engine.get_position(OTHER), other_before);
    assert_eq!(engine.stake_vault, 2_000);
    assert_eq!(engine.get_position(HOLDER), inactive());
}

#[test]
fn repeated_cycles_stay_consistent() {
    let mut engine = StakingEngine::initialize();
    engine.fund_reserve(10_000_000).unwrap();
    // Cycle one: a year at tier 1.
    engine.stake(HOLDER, 1_000_000, 1, 0).unwrap();
    assert_eq!(engine.claim_reward(HOLDER, YEAR), Ok(150_000));
    // Cycle two: top up at tier 3 and ride out the lock.
    engine.stake(HOLDER, 1_000_000, 3, YEAR).unwrap();
    let p = engine.get_position(HOLDER);
    assert_eq!(p.pending_rewards, 0);
    assert_eq!(p.apr_bps, 60);
    assert_eq!(p.lock_expiry, YEAR + 3 * YEAR);
    assert_eq!(engine.stake_vault, 2_000_000);
    // Three years on 2_000_000 at 60 / 100: 1_200_000 per year.
    let expiry = YEAR + 3 * YEAR;
    assert_eq!(engine.unstake(HOLDER, 500_000, expiry), Ok(3_600_000));
    // Cycle three: the rest leaves with only the time since the payout.
    assert_eq!(engine.unstake(HOLDER, 1_500_000, expiry), Ok(0));
    assert_eq!(engine.get_position(HOLDER), inactive());
    assert_eq!(engine.stake_vault, 0);
    assert_eq!(engine.reward_reserve, 10_000_000 - 150_000 - 3_600_000);
}
