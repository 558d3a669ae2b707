//! What holds of the pool across its operations.
use vstd::prelude::*;

use crate::contract::{position_of, StakingContract};
use crate::shares::{minted_shares, redeemed_amount};
use crate::types::{StakeError, StakeInfo, StakePosition};

verus! {

proof fn lemma_minted_fair(amount: int, total_staked: int, total_shares: int)
    requires
        amount > 0,
        total_staked > 0,
        total_shares > 0,
    ensures
        0 <= minted_shares(amount, total_staked, total_shares),
        minted_shares(amount, total_staked, total_shares) * total_staked <= amount * total_shares,
{
    let m = amount * total_shares / total_staked;
    assert(0 <= m && m * total_staked <= amount * total_shares) by (nonlinear_arith)
        requires
            amount > 0,
            total_staked > 0,
            total_shares > 0,
            m == amount * total_shares / total_staked,
    ;
}

proof fn lemma_redeemed_fair(shares: int, total_staked: int, total_shares: int)
    requires
        0 < shares <= total_shares,
        total_staked >= 0,
    ensures
        0 <= redeemed_amount(shares, total_staked, total_shares) <= total_staked,
        redeemed_amount(shares, total_staked, total_shares) * total_shares <= shares * total_staked,
{
    let p = shares * total_staked / total_shares;
    assert(0 <= p && p * total_shares <= shares * total_staked && p <= total_staked)
        by (nonlinear_arith)
        requires
            0 < shares <= total_shares,
            total_staked >= 0,
            p == shares * total_staked / total_shares,
    ;
}

/// A paused pool refuses every deposit and every withdrawal with `Paused`, and
/// neither changes the pool nor the staker's record.
pub proof fn lemma_paused_pool_refuses<A>(
    pool: StakingContract<A>,
    rec: Option<StakeInfo>,
    amount: int,
    now: u64,
)
    requires
        pool.paused,
    ensures
        pool.stake_reply(rec, amount) == Err::<i128, StakeError>(StakeError::Paused),
        pool.stake_step(rec, amount, now) == (pool, rec),
        pool.unstake_reply(rec, amount) == Err::<i128, StakeError>(StakeError::Paused),
        pool.unstake_step(rec, amount) == (pool, rec),
{
}

/// Deposits never admit more stakers than the cap allows: a pool within its cap
/// stays within it.
pub proof fn lemma_stake_respects_cap<A>(
    pool: StakingContract<A>,
    rec: Option<StakeInfo>,
    amount: int,
    now: u64,
)
    requires
        pool.staker_count <= pool.cap(),
    ensures
        pool.stake_step(rec, amount, now).0.staker_count <= pool.stake_step(rec, amount, now).0.cap(),
{
}

/// A deposit never lowers the value of the shares already held: tokens per share
/// after the deposit are at least tokens per share before it.
pub proof fn lemma_stake_never_dilutes<A>(
    pool: StakingContract<A>,
    rec: Option<StakeInfo>,
    amount: int,
    now: u64,
)
    requires
        pool.wf(),
        pool.total_shares > 0,
        pool.stake_in_range(rec, amount),
    ensures
        ({
            let post = pool.stake_step(rec, amount, now).0;
            post.total_staked * pool.total_shares >= pool.total_staked * post.total_shares
        }),
{
    if pool.stake_refusal(rec, amount) is None {
        let ts = pool.total_staked as int;
        let tsh = pool.total_shares as int;
        let m = pool.minted_for(amount);
        if ts > 0 {
            lemma_minted_fair(amount, ts, tsh);
        } else {
            assert(m * ts <= amount * tsh) by (nonlinear_arith)
                requires
                    ts == 0,
                    amount > 0,
                    tsh > 0,
            ;
        }
        assert((ts + amount) * tsh >= ts * (tsh + m)) by (nonlinear_arith)
            requires
                m * ts <= amount * tsh,
                amount > 0,
                tsh > 0,
        ;
    }
}

/// A withdrawal never lowers the value of the shares that remain: tokens per share
/// after the withdrawal are at least tokens per share before it.
pub proof fn lemma_unstake_never_dilutes<A>(pool: StakingContract<A>, rec: Option<StakeInfo>, shares: int)
    requires
        pool.wf(),
        pool.record_fits(rec),
        pool.unstake_in_range(rec, shares),
    ensures
        ({
            let post = pool.unstake_step(rec, shares).0;
            post.total_staked * pool.total_shares >= pool.total_staked * post.total_shares
        }),
{
    if pool.unstake_refusal(rec, shares) is None {
        let ts = pool.total_staked as int;
        let tsh = pool.total_shares as int;
        lemma_redeemed_fair(shares, ts, tsh);
        let p = pool.redeemed_for(shares);
        assert((ts - p) * tsh >= ts * (tsh - shares)) by (nonlinear_arith)
            requires
                p * tsh <= shares * ts,
        ;
    }
}

/// Depositing and at once withdrawing the shares that the deposit minted never pays
/// back more than was deposited; at one token per share it pays back exactly the deposit.
/// (A pool that holds tokens but no shares is left out: its first depositor takes
/// the tokens it holds.)
pub proof fn lemma_round_trip_never_profits<A>(
    pool: StakingContract<A>,
    rec: Option<StakeInfo>,
    amount: int,
    now: u64,
)
    requires
        pool.wf(),
        pool.record_fits(rec),
        pool.stake_in_range(rec, amount),
        pool.stake_refusal(rec, amount) is None,
        pool.total_shares == 0 ==> pool.total_staked == 0,
    ensures
        ({
            let (post, rec2) = pool.stake_step(rec, amount, now);
            let minted = pool.minted_for(amount);
            &&& minted > 0
            &&& post.unstake_refusal(rec2, minted) is None
            &&& post.redeemed_for(minted) <= amount
            &&& pool.total_staked == pool.total_shares ==> post.redeemed_for(minted) == amount
        }),
{
    let ts = pool.total_staked as int;
    let tsh = pool.total_shares as int;
    let m = pool.minted_for(amount);
    let held = match rec {
        Some(r) => r.shares as int,
        None => 0int,
    };
    if ts > 0 && tsh > 0 {
        lemma_minted_fair(amount, ts, tsh);
    }
    assert(m * ts <= amount * tsh);
    assert(0 <= held);
    let p = m * (ts + amount) / (tsh + m);
    assert(p <= amount) by (nonlinear_arith)
        requires
            m > 0,
            tsh >= 0,
            ts >= 0,
            amount > 0,
            m * ts <= amount * tsh,
            p == m * (ts + amount) / (tsh + m),
    ;
    if ts == tsh {
        if ts > 0 {
            assert(amount * tsh / ts == amount) by (nonlinear_arith)
                requires
                    ts == tsh,
                    ts > 0,
            ;
        }
        assert(m == amount);
        assert(p == amount) by (nonlinear_arith)
            requires
                m == amount,
                amount > 0,
                ts == tsh,
                ts >= 0,
                p == m * (ts + amount) / (tsh + m),
        ;
    }
}

/// At one token per share the pool stays at one token per share: a deposit mints
/// exactly as many shares as tokens, and a withdrawal pays exactly as many tokens
/// as shares.
pub proof fn lemma_parity_persists<A>(
    pool: StakingContract<A>,
    rec: Option<StakeInfo>,
    amount: int,
    shares: int,
    now: u64,
)
    requires
        pool.wf(),
        pool.record_fits(rec),
        pool.total_staked == pool.total_shares,
        pool.stake_in_range(rec, amount),
        pool.unstake_in_range(rec, shares),
    ensures
        pool.stake_refusal(rec, amount) is None ==> pool.minted_for(amount) == amount,
        pool.stake_step(rec, amount, now).0.total_staked == pool.stake_step(
            rec,
            amount,
            now,
        ).0.total_shares,
        pool.unstake_refusal(rec, shares) is None ==> pool.redeemed_for(shares) == shares,
        pool.unstake_step(rec, shares).0.total_staked == pool.unstake_step(rec, shares).0.total_shares,
{
    let ts = pool.total_staked as int;
    if pool.stake_refusal(rec, amount) is None && ts > 0 {
        assert(amount * ts / ts == amount) by (nonlinear_arith)
            requires
                ts > 0,
        ;
    }
    if pool.unstake_refusal(rec, shares) is None {
        assert(shares * ts / ts == shares) by (nonlinear_arith)
            requires
                ts > 0,
        ;
    }
}

/// Withdrawing every share a staker holds removes the staker's record, uncounts the
/// staker, and leaves a zero position.
pub proof fn lemma_full_unstake_clears_record<A>(pool: StakingContract<A>, r: StakeInfo)
    requires
        !pool.paused,
        r.shares > 0,
    ensures
        ({
            let (post, rec) = pool.unstake_step(Some(r), r.shares as int);
            &&& rec is None
            &&& position_of(rec) == (StakePosition { amount: 0, shares: 0 })
            &&& pool.staker_count > 0 ==> post.staker_count == pool.staker_count - 1
        }),
{
}

} // verus!
