//! What each operation does, stated by what its answer and its effects satisfy.
use vstd::prelude::*;

use crate::contract::{position_of, StakingContract};
use crate::types::{StakeError, StakeInfo, StakePosition, MAX_STAKERS_DEFAULT};

verus! {

/// The staker cap in force is the cap configured with `init`, whatever it is, and
/// the default only while none is configured.
pub proof fn lemma_cap_is_configured_value<A>(pool: StakingContract<A>, m: u32)
    ensures
        (StakingContract { max_stakers: Some(m), ..pool }).cap() == m,
        (StakingContract { max_stakers: None, ..pool }).cap() == MAX_STAKERS_DEFAULT,
        pool.max_stakers == Some(m) ==> pool.cap() == m,
{
}

/// The position reported for a staker is the staker's record as it stands: its
/// tokens and its shares, whatever they are; zero for someone who is not staking.
pub proof fn lemma_position_reports_record(r: StakeInfo)
    ensures
        position_of(Some(r)).amount == r.amount,
        position_of(Some(r)).shares == r.shares,
        position_of(None) == (StakePosition { amount: 0, shares: 0 }),
{
}

/// What `stake` answers and does, for every pool, record, amount and time.
///
/// - Refused, with nothing changed: `Paused` while paused; else `InvalidAmount` for an
///   amount that is not positive; else `StakerCapReached` for a newcomer once the count
///   has reached the cap; else `BelowMinStake` exactly when the deposit is worth less
///   than one share (`amount * total_shares < total_staked`).
/// - Otherwise accepted, whether the staker is new or already holds a record. The shares
///   minted are the whole number of shares the deposit is worth: `amount` in an empty
///   pool, else the largest `m` with `m * total_staked <= amount * total_shares`. The
///   pool gains the tokens and the shares and counts a newcomer; the record gains the
///   tokens and the shares and takes the time of the deposit; nothing else changes.
pub proof fn lemma_stake_behaviour<A>(
    pool: StakingContract<A>,
    rec: Option<StakeInfo>,
    amount: int,
    now: u64,
)
    requires
        pool.wf(),
        pool.record_fits(rec),
        pool.stake_in_range(rec, amount),
    ensures
        ({
            let reply = pool.stake_reply(rec, amount);
            let (post, rec2) = pool.stake_step(rec, amount, now);
            let ts = pool.total_staked as int;
            let tsh = pool.total_shares as int;
            let empty = ts == 0 || tsh == 0;
            let newcomer_barred = rec is None && pool.staker_count >= pool.cap();
            let worth_a_share = empty || amount * tsh >= ts;
            &&& pool.paused ==> reply == Err::<i128, StakeError>(StakeError::Paused)
            &&& !pool.paused && amount <= 0 ==> reply == Err::<i128, StakeError>(
                StakeError::InvalidAmount,
            )
            &&& !pool.paused && amount > 0 && newcomer_barred ==> reply == Err::<i128, StakeError>(
                StakeError::StakerCapReached,
            )
            &&& !pool.paused && amount > 0 && !newcomer_barred && !worth_a_share ==> reply == Err::<
                i128,
                StakeError,
            >(StakeError::BelowMinStake)
            &&& reply is Err ==> post == pool && rec2 == rec
            &&& reply is Ok <==> (!pool.paused && amount > 0 && !newcomer_barred && worth_a_share)
            &&& reply matches Ok(m) ==> {
                &&& m > 0
                &&& empty ==> m == amount
                &&& !empty ==> m * ts <= amount * tsh < (m + 1) * ts
                &&& post.total_staked == ts + amount
                &&& post.total_shares == tsh + m
                &&& post.staker_count == if rec is None {
                    pool.staker_count + 1
                } else {
                    pool.staker_count as int
                }
                &&& post.admin == pool.admin
                &&& post.token == pool.token
                &&& post.paused == pool.paused
                &&& post.max_stakers == pool.max_stakers
                &&& rec2 == Some(
                    StakeInfo {
                        amount: (match rec {
                            Some(r) => r.amount + amount,
                            None => amount,
                        }) as i128,
                        shares: (match rec {
                            Some(r) => r.shares + m,
                            None => m as int,
                        }) as i128,
                        staked_at: now,
                    },
                )
                &&& rec2->Some_0.amount == (match rec {
                    Some(r) => r.amount + amount,
                    None => amount,
                })
                &&& rec2->Some_0.shares == (match rec {
                    Some(r) => r.shares + m,
                    None => m as int,
                })
            }
        }),
{
    let ts = pool.total_staked as int;
    let tsh = pool.total_shares as int;
    if !pool.paused && amount > 0 && ts != 0 && tsh != 0 {
        let m = amount * tsh / ts;
        assert(m * ts <= amount * tsh < (m + 1) * ts) by (nonlinear_arith)
            requires
                ts > 0,
                tsh > 0,
                amount > 0,
                m == amount * tsh / ts,
        ;
        assert((m == 0) <==> (amount * tsh < ts)) by (nonlinear_arith)
            requires
                ts > 0,
                tsh > 0,
                amount > 0,
                m == amount * tsh / ts,
        ;
        assert(m >= 0) by (nonlinear_arith)
            requires
                ts > 0,
                tsh > 0,
                amount > 0,
                m == amount * tsh / ts,
        ;
    }
}

/// What `unstake` answers and does, for every pool, record and number of shares.
///
/// - Refused, with nothing changed: `Paused` while paused; else `NotStaked` for
///   someone who holds no record; else `ZeroShares` for zero shares, `InvalidAmount`
///   for a negative number, `InsufficientShares` for more shares than the record holds.
/// - Otherwise accepted. The payout `p` is the whole number of tokens the shares are
///   worth: the largest `p` with `p * total_shares <= shares * total_staked`. The pool
///   loses `p` tokens and the shares. The record loses the shares and its amount
///   shrinks by `p`, stopping at zero, computed from the record's own amount; its
///   deposit time is kept. Redeeming the last share drops the record and uncounts
///   the staker; nothing else changes.
pub proof fn lemma_unstake_behaviour<A>(pool: StakingContract<A>, rec: Option<StakeInfo>, shares: int)
    requires
        pool.wf(),
        pool.record_fits(rec),
        pool.unstake_in_range(rec, shares),
    ensures
        ({
            let reply = pool.unstake_reply(rec, shares);
            let (post, rec2) = pool.unstake_step(rec, shares);
            let ts = pool.total_staked as int;
            let tsh = pool.total_shares as int;
            &&& pool.paused ==> reply == Err::<i128, StakeError>(StakeError::Paused)
            &&& !pool.paused && rec is None ==> reply == Err::<i128, StakeError>(
                StakeError::NotStaked,
            )
            &&& !pool.paused && rec is Some && shares == 0 ==> reply == Err::<i128, StakeError>(
                StakeError::ZeroShares,
            )
            &&& !pool.paused && rec is Some && shares < 0 ==> reply == Err::<i128, StakeError>(
                StakeError::InvalidAmount,
            )
            &&& !pool.paused && rec is Some && shares > rec->Some_0.shares ==> reply == Err::<
                i128,
                StakeError,
            >(StakeError::InsufficientShares)
            &&& reply is Err ==> post == pool && rec2 == rec
            &&& reply is Ok <==> (!pool.paused && rec is Some && 0 < shares <= rec->Some_0.shares)
            &&& reply matches Ok(p) ==> {
                let r = rec->Some_0;
                &&& 0 <= p <= ts
                &&& p * tsh <= shares * ts < (p + 1) * tsh
                &&& post.total_staked == ts - p
                &&& post.total_shares == tsh - shares
                &&& post.admin == pool.admin
                &&& post.token == pool.token
                &&& post.paused == pool.paused
                &&& post.max_stakers == pool.max_stakers
                &&& shares == r.shares ==> {
                    &&& rec2 is None
                    &&& post.staker_count == if pool.staker_count > 0 {
                        pool.staker_count - 1
                    } else {
                        0
                    }
                }
                &&& shares < r.shares ==> {
                    &&& rec2 == Some(
                        StakeInfo {
                            amount: (if r.amount > p {
                                r.amount - p
                            } else {
                                0
                            }) as i128,
                            shares: (r.shares - shares) as i128,
                            staked_at: r.staked_at,
                        },
                    )
                    &&& rec2->Some_0.amount == if r.amount > p {
                        r.amount - p
                    } else {
                        0
                    }
                    &&& rec2->Some_0.shares + shares == r.shares
                    &&& post.staker_count == pool.staker_count
                }
            }
        }),
{
    let ts = pool.total_staked as int;
    let tsh = pool.total_shares as int;
    if pool.unstake_refusal(rec, shares) is None {
        let p = shares * ts / tsh;
        assert(0 <= p <= ts && p * tsh <= shares * ts < (p + 1) * tsh) by (nonlinear_arith)
            requires
                0 < shares <= tsh,
                ts >= 0,
                p == shares * ts / tsh,
        ;
    }
}

/// The preconditions of `stake` and `unstake` ask only for a well-formed pool and
/// record and for arithmetic that stays within `i128`: a pool is well formed whenever
/// it holds no negative total, any record with shares between zero and the shares
/// outstanding fits it, at one token per share every deposit whose sums fit in
/// `i128` can run, and every withdrawal can run unless pricing its shares off parity
/// leaves `i128`.
pub proof fn lemma_limits_are_arithmetic_only<A>(
    pool: StakingContract<A>,
    rec: Option<StakeInfo>,
    amount: int,
    shares: int,
)
    ensures
        pool.total_staked >= 0 && pool.total_shares >= 0 ==> pool.wf(),
        pool.record_fits(None),
        (rec matches Some(r) && 0 <= r.shares <= pool.total_shares) ==> pool.record_fits(rec),
        (pool.wf() && pool.record_fits(rec) && pool.total_staked == pool.total_shares
            && pool.total_staked + amount <= i128::MAX && (rec matches Some(r) ==> r.amount + amount
            <= i128::MAX)) ==> pool.stake_in_range(rec, amount),
        (pool.total_staked != pool.total_shares ==> shares * pool.total_staked <= i128::MAX)
            ==> pool.unstake_in_range(rec, shares),
{
    let ts = pool.total_staked as int;
    if pool.total_staked == pool.total_shares && ts > 0 && amount > 0 {
        assert(amount * ts / ts == amount) by (nonlinear_arith)
            requires
                ts > 0,
        ;
    }
}

} // verus!
