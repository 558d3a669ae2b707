use staking::{get_position, is_staker, staked_balance, StakeError, StakeInfo, StakePosition, StakingContract};

type Pool = StakingContract<u32>;

fn fresh() -> Pool {
    StakingContract::new(1, 2)
}

#[test]
fn advertised_constants() {
    assert_eq!(Pool::min_stake(), 10_000_000);
    assert_eq!(Pool::storage_deposit(), 10_000_000);
}

#[test]
fn config_defaults_then_init_sets_cap() {
    let mut pool = fresh();
    assert_eq!(pool.get_config(), 10_000);
    assert!(pool.max_stakers.is_none());
    pool.init(2);
    assert_eq!(pool.get_config(), 2);
}

#[test]
fn cap_refuses_newcomers_but_not_existing_stakers() {
    let mut pool = fresh();
    pool.init(1);
    let mut first: Option<StakeInfo> = None;
    let mut second: Option<StakeInfo> = None;
    assert_eq!(pool.stake(&mut first, 100, 5), Ok(100));
    assert_eq!(pool.get_staker_count(), 1);
    assert_eq!(pool.stake(&mut second, 100, 6), Err(StakeError::StakerCapReached));
    assert_eq!(second, None);
    assert_eq!(pool.total_staked(), 100);
    // an existing staker may add to its stake at the cap
    assert_eq!(pool.stake(&mut first, 50, 7), Ok(50));
    assert_eq!(pool.get_staker_count(), 1);
    assert_eq!(first, Some(StakeInfo { amount: 150, shares: 150, staked_at: 7 }));
}

#[test]
fn staker_count_follows_records() {
    let mut pool = fresh();
    let mut a: Option<StakeInfo> = None;
    let mut b: Option<StakeInfo> = None;
    pool.stake(&mut a, 300, 1).unwrap();
    pool.stake(&mut b, 100, 1).unwrap();
    assert_eq!(pool.get_staker_count(), 2);
    assert!(is_staker(&a) && is_staker(&b));
    pool.unstake(&mut a, 100).unwrap();
    assert_eq!(pool.get_staker_count(), 2);
    pool.unstake(&mut a, 200).unwrap();
    assert_eq!(pool.get_staker_count(), 1);
    assert!(!is_staker(&a));
    assert_eq!(pool.total_shares(), 100);
}

#[test]
fn unstake_without_record_is_not_staked() {
    let mut pool = fresh();
    let mut nobody: Option<StakeInfo> = None;
    assert_eq!(pool.unstake(&mut nobody, 5), Err(StakeError::NotStaked));
}

#[test]
fn unstake_rejects_negative_shares() {
    let mut pool = fresh();
    let mut rec: Option<StakeInfo> = None;
    pool.stake(&mut rec, 10, 1).unwrap();
    assert_eq!(pool.unstake(&mut rec, -3), Err(StakeError::InvalidAmount));
    assert_eq!(pool.total_shares(), 10);
}

#[test]
fn partial_unstake_keeps_deposit_time() {
    let mut pool = fresh();
    let mut rec: Option<StakeInfo> = None;
    pool.stake(&mut rec, 1_000, 11).unwrap();
    pool.stake(&mut rec, 1_000, 22).unwrap();
    assert_eq!(rec.unwrap().staked_at, 22);
    assert_eq!(pool.unstake(&mut rec, 500), Ok(500));
    assert_eq!(rec, Some(StakeInfo { amount: 1_500, shares: 1_500, staked_at: 22 }));
}

#[test]
fn payout_above_deposit_leaves_zero_amount() {
    // the pool gained tokens: each share is worth two tokens
    let mut pool = fresh();
    let mut rec: Option<StakeInfo> = None;
    pool.stake(&mut rec, 100, 1).unwrap();
    pool.total_staked = 200;
    assert_eq!(pool.unstake(&mut rec, 60), Ok(120));
    assert_eq!(rec, Some(StakeInfo { amount: 0, shares: 40, staked_at: 1 }));
    assert_eq!(staked_balance(&rec), 0);
    assert_eq!(pool.total_staked(), 80);
}

#[test]
fn shares_round_down() {
    let mut pool = fresh();
    let mut a: Option<StakeInfo> = None;
    let mut b: Option<StakeInfo> = None;
    pool.stake(&mut a, 3, 1).unwrap();
    pool.total_staked = 7;
    // 10 * 3 / 7 = 4.28.. -> 4 shares
    assert_eq!(pool.stake(&mut b, 10, 1), Ok(4));
    // 2 * 17 / 7 = 4.85.. -> 4 tokens
    assert_eq!(pool.unstake(&mut b, 2), Ok(4));
}

#[test]
fn round_trip_pays_back_at_most_the_deposit() {
    let mut pool = fresh();
    let mut a: Option<StakeInfo> = None;
    let mut b: Option<StakeInfo> = None;
    pool.stake(&mut a, 3, 1).unwrap();
    pool.total_staked = 7;
    let minted = pool.stake(&mut b, 10, 1).unwrap();
    let back = pool.unstake(&mut b, minted).unwrap();
    assert_eq!(back, 9);
    assert!(back <= 10);
}

#[test]
fn deposit_does_not_dilute_holders() {
    let mut pool = fresh();
    let mut a: Option<StakeInfo> = None;
    let mut b: Option<StakeInfo> = None;
    pool.stake(&mut a, 3, 1).unwrap();
    pool.total_staked = 7;
    let (ts, tsh) = (pool.total_staked(), pool.total_shares());
    pool.stake(&mut b, 10, 1).unwrap();
    assert!(pool.total_staked() * tsh >= ts * pool.total_shares());
}

#[test]
fn pause_and_unpause_change_only_the_flag() {
    let mut pool = fresh();
    let mut rec: Option<StakeInfo> = None;
    pool.stake(&mut rec, 42, 3).unwrap();
    pool.pause();
    assert_eq!(pool.unstake(&mut rec, 42), Err(StakeError::Paused));
    assert_eq!(get_position(&rec), StakePosition { amount: 42, shares: 42 });
    pool.unpause();
    assert_eq!(pool.total_staked(), 42);
    assert_eq!(pool.get_staker_count(), 1);
    assert_eq!(*pool.admin(), 1);
    assert_eq!(*pool.token(), 2);
}

#[test]
fn limits_catch_overflowing_arithmetic() {
    let mut pool = fresh();
    let mut rec: Option<StakeInfo> = None;
    pool.stake(&mut rec, 1_000, 1).unwrap();
    assert!(!pool.stake_within_limits(&rec, i128::MAX));
    assert!(pool.stake_within_limits(&rec, 1));
    pool.total_staked = i128::MAX / 2;
    assert!(!pool.unstake_within_limits(&rec, 1_000));
    assert!(pool.unstake_within_limits(&rec, 1));
}

#[test]
fn limits_reject_records_that_do_not_fit_the_pool() {
    let pool = fresh();
    let foreign = Some(StakeInfo { amount: 5, shares: 5, staked_at: 0 });
    assert!(!pool.stake_within_limits(&foreign, 5));
    assert!(!pool.unstake_within_limits(&foreign, 5));
}

#[test]
fn deposit_buying_no_share_is_refused() {
    let mut pool = fresh();
    let mut first: Option<StakeInfo> = None;
    let mut newcomer: Option<StakeInfo> = None;
    pool.stake(&mut first, 1, 1).unwrap();
    pool.total_staked = 10;
    // 5 * 1 / 10 rounds down to no share at all
    assert!(pool.stake_within_limits(&newcomer, 5));
    assert_eq!(pool.stake(&mut newcomer, 5, 2), Err(StakeError::BelowMinStake));
    assert_eq!(newcomer, None);
    assert_eq!(pool.get_staker_count(), 1);
    assert_eq!(pool.total_staked(), 10);
    assert_eq!(pool.stake(&mut newcomer, 10, 2), Ok(1));
}

#[test]
fn recorded_amount_is_deposits_minus_payouts() {
    let mut pool = fresh();
    let mut a: Option<StakeInfo> = None;
    let mut b: Option<StakeInfo> = None;
    pool.stake(&mut a, 700, 1).unwrap();
    pool.stake(&mut b, 50, 1).unwrap();
    let paid1 = pool.unstake(&mut a, 200).unwrap();
    pool.stake(&mut a, 30, 2).unwrap();
    assert_eq!(pool.unstake(&mut a, 0), Err(StakeError::ZeroShares));
    let paid2 = pool.unstake(&mut a, 100).unwrap();
    assert_eq!(staked_balance(&a), 700 - paid1 + 30 - paid2);
    assert_eq!(get_position(&a).shares, staked_balance(&a));
    assert_eq!(pool.total_staked(), pool.total_shares());
    let paid3 = pool.unstake(&mut a, 430).unwrap();
    assert_eq!(700 - paid1 + 30 - paid2 - paid3, 0);
    assert_eq!(staked_balance(&a), 0);
    assert!(!is_staker(&a));
    assert_eq!(pool.get_staker_count(), 1);
}

#[test]
fn non_staker_unstake_is_not_staked_whatever_the_shares() {
    let mut pool = fresh();
    let mut nobody: Option<StakeInfo> = None;
    assert!(pool.unstake_within_limits(&nobody, 0));
    assert_eq!(pool.unstake(&mut nobody, 0), Err(StakeError::NotStaked));
    assert_eq!(pool.unstake(&mut nobody, -7), Err(StakeError::NotStaked));
}

#[test]
fn large_amounts_at_one_token_per_share() {
    let mut pool = fresh();
    let mut rec: Option<StakeInfo> = None;
    let big: i128 = 13_000_000_000_000_000_000; // 13 tokens at 18 decimals
    pool.stake(&mut rec, 1, 1).unwrap();
    assert!(pool.stake_within_limits(&rec, big));
    assert_eq!(pool.stake(&mut rec, big, 2), Ok(big));
    assert!(pool.unstake_within_limits(&rec, big));
    assert_eq!(pool.unstake(&mut rec, big), Ok(big));
    assert_eq!(pool.total_staked(), 1);
}

#[test]
fn refused_newcomer_at_cap_needs_no_pricing() {
    let mut pool = fresh();
    pool.init(1);
    let mut first: Option<StakeInfo> = None;
    let mut second: Option<StakeInfo> = None;
    pool.stake(&mut first, 3, 1).unwrap();
    pool.total_staked = 7;
    assert!(pool.stake_within_limits(&second, i128::MAX));
    assert_eq!(pool.stake(&mut second, i128::MAX, 1), Err(StakeError::StakerCapReached));
}
