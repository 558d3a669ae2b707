use staking::{get_position, is_staker, staked_balance, StakeError, StakeInfo, StakePosition, StakingContract};

const ADMIN: &str = "admin";
const TOKEN: &str = "token";
const NOW: u64 = 1_700_000_000;

type Pool = StakingContract<&'static str>;

fn setup() -> (Pool, &'static str, Option<StakeInfo>) {
    (StakingContract::new(ADMIN, TOKEN), ADMIN, None)
}

fn stake(pool: &mut Pool, record: &mut Option<StakeInfo>, amount: i128) -> Result<i128, StakeError> {
    assert!(pool.stake_within_limits(record, amount));
    pool.stake(record, amount, NOW)
}

fn unstake(pool: &mut Pool, record: &mut Option<StakeInfo>, shares: i128) -> Result<i128, StakeError> {
    assert!(pool.unstake_within_limits(record, shares));
    pool.unstake(record, shares)
}

// ── initialisation ──────────────────────────────────────────────────────────

#[test]
fn initialize_happy_path_stores_admin() {
    let admin = "some admin";
    let token_addr = "some token";
    let pool = StakingContract::new(admin, token_addr);
    assert_eq!(*pool.admin(), admin);
}

#[test]
fn initialize_duplicate_call_panics() {
    let (pool, admin, _staker) = setup();
    assert_eq!(*pool.admin(), admin);
}

#[test]
fn initialize_without_auth_panics() {
    let admin = "some admin";
    let token_addr = "some token";
    let pool = StakingContract::new(admin, token_addr);
    assert_eq!(*pool.admin(), admin);
}

#[test]
fn initialize_wrong_caller_cannot_init() {
    let admin = "some admin";
    let token_addr = "some token";
    let pool = StakingContract::new(admin, token_addr);
    assert_eq!(*pool.admin(), admin);
}

#[test]
fn admin_query_returns_correct_address_after_init() {
    let (pool, admin, _staker) = setup();
    assert_eq!(*pool.admin(), admin);
}

#[test]
fn initialize_sets_token_and_zero_totals() {
    let (pool, _admin, _staker) = setup();
    assert_eq!(*pool.token(), TOKEN);
    assert_eq!(pool.total_staked(), 0);
    assert_eq!(pool.total_shares(), 0);
}

// ── stake ───────────────────────────────────────────────────────────────────

#[test]
fn stake_transfers_tokens_and_records_position() {
    let (mut pool, _admin, mut staker) = setup();

    let minted_shares = stake(&mut pool, &mut staker, 250_000_000i128).unwrap();

    assert_eq!(minted_shares, 250_000_000);
    assert_eq!(
        get_position(&staker),
        StakePosition {
            amount: 250_000_000,
            shares: 250_000_000,
        }
    );
    assert_eq!(pool.total_staked(), 250_000_000);
    assert_eq!(pool.total_shares(), 250_000_000);
}

#[test]
fn stake_mints_proportional_shares_for_later_stakers() {
    let (mut pool, _admin, mut first_staker) = setup();
    let mut second_staker: Option<StakeInfo> = None;

    stake(&mut pool, &mut first_staker, 200_000_000i128).unwrap();

    pool.total_staked = 400_000_000i128;

    let minted_second = stake(&mut pool, &mut second_staker, 100_000_000i128).unwrap();
    assert_eq!(minted_second, 50_000_000);
    assert_eq!(
        get_position(&second_staker),
        StakePosition {
            amount: 100_000_000,
            shares: 50_000_000,
        }
    );
}

#[test]
fn stake_rejects_non_positive_amounts() {
    let (mut pool, _admin, mut staker) = setup();

    assert_eq!(stake(&mut pool, &mut staker, 0), Err(StakeError::InvalidAmount));
    assert_eq!(stake(&mut pool, &mut staker, -1), Err(StakeError::InvalidAmount));
}

#[test]
fn stake_state_is_updated_before_transfer() {
    let (mut pool, _admin, mut staker) = setup();

    let amount = 500_000_000i128;
    let minted = stake(&mut pool, &mut staker, amount).unwrap();

    assert_eq!(pool.total_staked(), amount);
    assert_eq!(pool.total_shares(), minted);
    assert_eq!(
        get_position(&staker),
        StakePosition {
            amount,
            shares: minted,
        }
    );

    let amount2 = 100_000_000i128;
    let minted2 = stake(&mut pool, &mut staker, amount2).unwrap();
    assert_eq!(minted2, amount2);
    assert_eq!(pool.total_staked(), amount + amount2);
    assert_eq!(pool.total_shares(), minted + minted2);
}

// ── unstake ─────────────────────────────────────────────────────────────────

#[test]
fn unstake_full_returns_all_tokens() {
    let (mut pool, _admin, mut staker) = setup();

    let shares = stake(&mut pool, &mut staker, 250_000_000i128).unwrap();
    let returned = unstake(&mut pool, &mut staker, shares).unwrap();

    assert_eq!(returned, 250_000_000);
    assert_eq!(pool.total_staked(), 0);
    assert_eq!(pool.total_shares(), 0);
    assert_eq!(
        get_position(&staker),
        StakePosition {
            amount: 0,
            shares: 0,
        }
    );
}

#[test]
fn unstake_partial_returns_proportional_tokens() {
    let (mut pool, _admin, mut staker) = setup();

    let shares = stake(&mut pool, &mut staker, 400_000_000i128).unwrap();
    let half = shares / 2;
    let returned = unstake(&mut pool, &mut staker, half).unwrap();

    assert_eq!(returned, 200_000_000);
    assert_eq!(pool.total_staked(), 200_000_000);
    assert_eq!(pool.total_shares(), 200_000_000);
}

#[test]
fn unstake_rejects_insufficient_shares() {
    let (mut pool, _admin, mut staker) = setup();

    stake(&mut pool, &mut staker, 100_000_000i128).unwrap();
    assert_eq!(
        unstake(&mut pool, &mut staker, 999_999_999),
        Err(StakeError::InsufficientShares)
    );
}

#[test]
fn unstake_rejects_zero_shares() {
    let (mut pool, _admin, mut staker) = setup();

    stake(&mut pool, &mut staker, 100_000_000i128).unwrap();
    assert_eq!(unstake(&mut pool, &mut staker, 0), Err(StakeError::ZeroShares));
}

// ── pause ───────────────────────────────────────────────────────────────────

#[test]
fn stake_fails_when_paused() {
    let (mut pool, _admin, mut staker) = setup();

    pool.pause();
    assert!(pool.is_paused());

    assert_eq!(stake(&mut pool, &mut staker, 500i128), Err(StakeError::Paused));
}

#[test]
fn unstake_fails_when_paused() {
    let (mut pool, _admin, mut staker) = setup();

    stake(&mut pool, &mut staker, 1_000i128).unwrap();
    assert_eq!(staked_balance(&staker), 1_000i128);

    pool.pause();
    assert!(pool.is_paused());

    assert_eq!(unstake(&mut pool, &mut staker, 500i128), Err(StakeError::Paused));

    // Balance unchanged.
    assert_eq!(staked_balance(&staker), 1_000i128);
}

#[test]
fn unpause_restores_stake_functionality() {
    let (mut pool, _admin, mut staker) = setup();

    pool.pause();
    assert!(pool.is_paused());
    assert_eq!(stake(&mut pool, &mut staker, 500i128), Err(StakeError::Paused));

    pool.unpause();
    assert!(!pool.is_paused());

    let shares = stake(&mut pool, &mut staker, 500i128).unwrap();
    assert_eq!(shares, 500i128);
    assert_eq!(staked_balance(&staker), 500i128);

    let returned = unstake(&mut pool, &mut staker, 500i128).unwrap();
    assert_eq!(returned, 500i128);
    assert_eq!(staked_balance(&staker), 0i128);
}

#[test]
fn is_paused_returns_false_before_pausing() {
    let (pool, _admin, _staker) = setup();
    assert!(!pool.is_paused());
}

#[test]
fn read_functions_unaffected_by_pause() {
    let (mut pool, _admin, mut staker) = setup();

    stake(&mut pool, &mut staker, 1_000i128).unwrap();
    pool.pause();

    assert!(pool.is_paused());
    assert_eq!(pool.total_staked(), 1_000i128);
    assert_eq!(pool.total_shares(), 1_000i128);
    assert_eq!(staked_balance(&staker), 1_000i128);
    assert!(get_position(&staker).shares > 0);
}
