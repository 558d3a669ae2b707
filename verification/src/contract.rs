use vstd::prelude::*;

use crate::shares::{minted_shares, redeemed_amount, shares_for_deposit, tokens_for_shares};
use crate::types::{StakeError, StakeInfo, StakePosition, MAX_STAKERS_DEFAULT, MIN_STAKE, STORAGE_DEPOSIT};

verus! {

/// The pool-wide state of the staking contract.
///
/// Each staker's own record (`Option<StakeInfo>`, `None` for someone who is not
/// staking) is kept apart from this state, one record per staker; the operations
/// that concern a staker take that staker's record alongside.
#[derive(Debug)]
pub struct StakingContract<A> {
    /// Who may pause and unpause the pool.
    pub admin: A,
    /// The token that is staked.
    pub token: A,
    /// While set, deposits and withdrawals are refused.
    pub paused: bool,
    /// The staker cap, once configured.
    pub max_stakers: Option<u32>,
    /// How many stakers hold a record.
    pub staker_count: u32,
    /// Tokens held by the pool.
    pub total_staked: i128,
    /// Pool shares outstanding.
    pub total_shares: i128,
}

/// Tokens left on a record after `paid` tokens are paid out against it; never negative.
pub open spec fn amount_after_payout(amount: int, paid: int) -> int {
    if amount > paid {
        amount - paid
    } else {
        0
    }
}

/// The record a staker holds after depositing `amount` tokens for `minted` shares at time `now`.
pub open spec fn staked_record(rec: Option<StakeInfo>, amount: int, minted: int, now: u64) -> StakeInfo {
    let (held_amount, held_shares) = match rec {
        Some(r) => (r.amount as int, r.shares as int),
        None => (0int, 0int),
    };
    StakeInfo {
        amount: (held_amount + amount) as i128,
        shares: (held_shares + minted) as i128,
        staked_at: now,
    }
}

/// The record a staker holds after redeeming `shares` shares for `paid` tokens:
/// gone once no share is left.
pub open spec fn unstaked_record(r: StakeInfo, shares: int, paid: int) -> Option<StakeInfo> {
    if r.shares - shares == 0 {
        None
    } else {
        Some(
            StakeInfo {
                amount: amount_after_payout(r.amount as int, paid) as i128,
                shares: (r.shares - shares) as i128,
                staked_at: r.staked_at,
            },
        )
    }
}

/// The position reported for a staker's record: all zero for someone who is not staking.
pub open spec fn position_of(rec: Option<StakeInfo>) -> StakePosition {
    match rec {
        Some(r) => StakePosition { amount: r.amount, shares: r.shares },
        None => StakePosition { amount: 0, shares: 0 },
    }
}

impl<A> StakingContract<A> {
    /// The staker cap in force: the configured one, else the default.
    pub open spec fn cap(self) -> u32 {
        match self.max_stakers {
            Some(m) => m,
            None => MAX_STAKERS_DEFAULT,
        }
    }

    /// The pool never holds a negative number of tokens or shares.
    pub open spec fn wf(self) -> bool {
        self.total_staked >= 0 && self.total_shares >= 0
    }

    /// A staker's record can belong to this pool: its shares are among the shares outstanding.
    pub open spec fn record_fits(self, rec: Option<StakeInfo>) -> bool {
        rec matches Some(r) ==> 0 <= r.shares <= self.total_shares
    }

    /// Shares that a deposit of `amount` tokens buys from this pool.
    pub open spec fn minted_for(self, amount: int) -> int {
        minted_shares(amount, self.total_staked as int, self.total_shares as int)
    }

    /// Tokens that `shares` shares redeem from this pool.
    pub open spec fn redeemed_for(self, shares: int) -> int {
        redeemed_amount(shares, self.total_staked as int, self.total_shares as int)
    }

    /// Why a deposit of `amount` by the staker holding `rec` is refused early, before it
    /// is priced, if it is.
    pub open spec fn early_stake_refusal(self, rec: Option<StakeInfo>, amount: int) -> Option<StakeError> {
        if self.paused {
            Some(StakeError::Paused)
        } else if amount <= 0 {
            Some(StakeError::InvalidAmount)
        } else if rec is None && self.staker_count >= self.cap() {
            Some(StakeError::StakerCapReached)
        } else {
            None
        }
    }

    /// Why a deposit of `amount` by the staker holding `rec` is refused, if it is:
    /// a deposit not refused early is refused when it buys no share.
    pub open spec fn stake_refusal(self, rec: Option<StakeInfo>, amount: int) -> Option<StakeError> {
        match self.early_stake_refusal(rec, amount) {
            Some(e) => Some(e),
            None => if self.minted_for(amount) == 0 {
                Some(StakeError::BelowMinStake)
            } else {
                None
            },
        }
    }

    /// A deposit not refused early can be priced within `i128`, and an accepted
    /// one keeps every running total within `i128`.
    pub open spec fn stake_in_range(self, rec: Option<StakeInfo>, amount: int) -> bool {
        &&& (self.early_stake_refusal(rec, amount) is None && self.total_staked != 0 && self.total_staked
            != self.total_shares) ==> amount * self.total_shares <= i128::MAX
        &&& self.stake_refusal(rec, amount) is None ==> {
            &&& self.total_staked + amount <= i128::MAX
            &&& self.total_shares + self.minted_for(amount) <= i128::MAX
            &&& rec matches Some(r) ==> r.amount + amount <= i128::MAX
        }
    }

    /// The pool after an accepted deposit of `amount` by the staker holding `rec`.
    pub open spec fn after_stake(self, rec: Option<StakeInfo>, amount: int) -> Self {
        StakingContract {
            staker_count: if rec is None {
                (self.staker_count + 1) as u32
            } else {
                self.staker_count
            },
            total_staked: (self.total_staked + amount) as i128,
            total_shares: (self.total_shares + self.minted_for(amount)) as i128,
            ..self
        }
    }

    /// Why a redemption of `shares` shares by the staker holding `rec` is refused, if it is.
    pub open spec fn unstake_refusal(self, rec: Option<StakeInfo>, shares: int) -> Option<StakeError> {
        if self.paused {
            Some(StakeError::Paused)
        } else if rec is None {
            Some(StakeError::NotStaked)
        } else if shares == 0 {
            Some(StakeError::ZeroShares)
        } else if shares < 0 {
            Some(StakeError::InvalidAmount)
        } else if shares > rec->Some_0.shares {
            Some(StakeError::InsufficientShares)
        } else {
            None
        }
    }

    /// An accepted redemption can price its shares within `i128`.
    pub open spec fn unstake_in_range(self, rec: Option<StakeInfo>, shares: int) -> bool {
        (self.unstake_refusal(rec, shares) is None && self.total_staked != self.total_shares) ==> shares
            * self.total_staked <= i128::MAX
    }

    /// The pool after an accepted redemption of `shares` shares by the staker holding `rec`.
    pub open spec fn after_unstake(self, rec: Option<StakeInfo>, shares: int) -> Self {
        let leaves = rec->Some_0.shares - shares == 0;
        StakingContract {
            staker_count: if leaves && self.staker_count > 0 {
                (self.staker_count - 1) as u32
            } else {
                self.staker_count
            },
            total_staked: (self.total_staked - self.redeemed_for(shares)) as i128,
            total_shares: (self.total_shares - shares) as i128,
            ..self
        }
    }

    /// What `stake` answers: the refusal, or the shares minted.
    pub open spec fn stake_reply(self, rec: Option<StakeInfo>, amount: int) -> Result<i128, StakeError> {
        match self.stake_refusal(rec, amount) {
            Some(e) => Err(e),
            None => Ok(self.minted_for(amount) as i128),
        }
    }

    /// The pool and the staker's record after `stake`: unchanged when refused.
    pub open spec fn stake_step(self, rec: Option<StakeInfo>, amount: int, now: u64) -> (
        Self,
        Option<StakeInfo>,
    ) {
        match self.stake_refusal(rec, amount) {
            Some(_) => (self, rec),
            None => (
                self.after_stake(rec, amount),
                Some(staked_record(rec, amount, self.minted_for(amount), now)),
            ),
        }
    }

    /// What `unstake` answers: the refusal, or the tokens paid out.
    pub open spec fn unstake_reply(self, rec: Option<StakeInfo>, shares: int) -> Result<i128, StakeError> {
        match self.unstake_refusal(rec, shares) {
            Some(e) => Err(e),
            None => Ok(self.redeemed_for(shares) as i128),
        }
    }

    /// The pool and the staker's record after `unstake`: unchanged when refused.
    pub open spec fn unstake_step(self, rec: Option<StakeInfo>, shares: int) -> (
        Self,
        Option<StakeInfo>,
    ) {
        match self.unstake_refusal(rec, shares) {
            Some(_) => (self, rec),
            None => (
                self.after_unstake(rec, shares),
                unstaked_record(rec->Some_0, shares, self.redeemed_for(shares)),
            ),
        }
    }

    /// A freshly deployed pool for `token`, administered by `admin`: nothing
    /// staked, not paused, no staker cap configured.
    pub fn new(admin: A, token: A) -> (pool: Self)
        ensures
            pool.admin == admin,
            pool.token == token,
            !pool.paused,
            pool.max_stakers is None,
            pool.staker_count == 0,
            pool.total_staked == 0,
            pool.total_shares == 0,
            pool.wf(),
    {
        StakingContract {
            admin,
            token,
            paused: false,
            max_stakers: None,
            staker_count: 0,
            total_staked: 0,
            total_shares: 0,
        }
    }

    /// Configures the staker cap; the cap can be configured once only.
    pub fn init(&mut self, max_stakers: u32)
        requires
            old(self).max_stakers is None,
        ensures
            *final(self) == (StakingContract { max_stakers: Some(max_stakers), ..*old(self) }),
    {
        self.max_stakers = Some(max_stakers);
    }

    /// The staker cap in force.
    pub fn get_config(&self) -> (cap: u32)
        ensures
            cap == self.cap(),
    {
        match self.max_stakers {
            Some(m) => m,
            None => MAX_STAKERS_DEFAULT,
        }
    }

    /// How many stakers hold a record.
    pub fn get_staker_count(&self) -> (count: u32)
        ensures
            count == self.staker_count,
    {
        self.staker_count
    }

    /// Who may pause and unpause the pool.
    pub fn admin(&self) -> (admin: &A)
        ensures
            *admin == self.admin,
    {
        &self.admin
    }

    /// The token that is staked.
    pub fn token(&self) -> (token: &A)
        ensures
            *token == self.token,
    {
        &self.token
    }

    /// Tokens held by the pool.
    pub fn total_staked(&self) -> (total: i128)
        ensures
            total == self.total_staked,
    {
        self.total_staked
    }

    /// Pool shares outstanding.
    pub fn total_shares(&self) -> (total: i128)
        ensures
            total == self.total_shares,
    {
        self.total_shares
    }

    /// Whether deposits and withdrawals are currently refused.
    pub fn is_paused(&self) -> (paused: bool)
        ensures
            paused == self.paused,
    {
        self.paused
    }

    /// Stops deposits and withdrawals; nothing else changes.
    pub fn pause(&mut self)
        ensures
            *final(self) == (StakingContract { paused: true, ..*old(self) }),
    {
        self.paused = true;
    }

    /// Allows deposits and withdrawals again; nothing else changes.
    pub fn unpause(&mut self)
        ensures
            *final(self) == (StakingContract { paused: false, ..*old(self) }),
    {
        self.paused = false;
    }

    /// Deposits `amount` tokens at time `now` for the staker whose record is `record`,
    /// and returns the shares minted for them.
    ///
    /// Refused, with nothing changed, while the pool is paused, for an amount
    /// that is not positive, for a newcomer once the staker cap is reached, and for
    /// an amount too small to buy a single share.
    /// Otherwise the shares are priced by `minted_shares`, the newcomer is counted,
    /// and the record and the pool's totals grow by the tokens and the shares.
    pub fn stake(&mut self, record: &mut Option<StakeInfo>, amount: i128, now: u64) -> (minted:
        Result<i128, StakeError>)
        requires
            old(self).wf(),
            old(self).record_fits(*old(record)),
            old(self).stake_in_range(*old(record), amount as int),
        ensures
            final(self).wf(),
            final(self).record_fits(*final(record)),
            minted == old(self).stake_reply(*old(record), amount as int),
            (*final(self), *final(record)) == old(self).stake_step(*old(record), amount as int, now),
    {
        if self.paused {
            return Err(StakeError::Paused);
        }
        if amount <= 0 {
            return Err(StakeError::InvalidAmount);
        }
        let is_new = record.is_none();
        if is_new && self.staker_count >= self.get_config() {
            return Err(StakeError::StakerCapReached);
        }
        let minted = shares_for_deposit(amount, self.total_staked, self.total_shares);
        if minted == 0 {
            return Err(StakeError::BelowMinStake);
        }
        if is_new {
            self.staker_count = self.staker_count + 1;
        }
        let (held_amount, held_shares) = match *record {
            Some(info) => (info.amount, info.shares),
            None => (0i128, 0i128),
        };
        *record = Some(
            StakeInfo {
                amount: held_amount + amount,
                shares: held_shares + minted,
                staked_at: now,
            },
        );
        self.total_staked = self.total_staked + amount;
        self.total_shares = self.total_shares + minted;
        Ok(minted)
    }

    /// Redeems `shares` of the shares held by the staker whose record is `record`,
    /// and returns the tokens they are worth.
    ///
    /// Refused, with nothing changed, while the pool is paused, for someone who is
    /// not staking, for zero or a negative number of shares, and for more shares
    /// than the record holds. Otherwise the shares are priced by
    /// `redeemed_amount`, the pool's totals shrink by the tokens and the shares,
    /// and the record keeps the rest; a staker left with no share loses the record
    /// and is no longer counted. The recorded amount shrinks by the payout and stops
    /// at zero: once shares are worth more than a token each (the pool gained tokens
    /// from elsewhere), a record can show zero tokens while it still holds shares,
    /// and a record is dropped with its last share whatever amount it showed.
    pub fn unstake(&mut self, record: &mut Option<StakeInfo>, shares: i128) -> (paid: Result<
        i128,
        StakeError,
    >)
        requires
            old(self).wf(),
            old(self).record_fits(*old(record)),
            old(self).unstake_in_range(*old(record), shares as int),
        ensures
            final(self).wf(),
            final(self).record_fits(*final(record)),
            paid == old(self).unstake_reply(*old(record), shares as int),
            (*final(self), *final(record)) == old(self).unstake_step(*old(record), shares as int),
            paid matches Ok(p) ==> 0 <= p <= old(self).total_staked,
    {
        if self.paused {
            return Err(StakeError::Paused);
        }
        let info = match *record {
            Some(info) => info,
            None => {
                return Err(StakeError::NotStaked);
            },
        };
        if shares == 0 {
            return Err(StakeError::ZeroShares);
        }
        if shares < 0 {
            return Err(StakeError::InvalidAmount);
        }
        if shares > info.shares {
            return Err(StakeError::InsufficientShares);
        }
        let paid = tokens_for_shares(shares, self.total_staked, self.total_shares);
        let remaining_shares = info.shares - shares;
        if remaining_shares == 0 {
            *record = None;
            if self.staker_count > 0 {
                self.staker_count = self.staker_count - 1;
            }
        } else {
            let remaining_amount = if info.amount > paid {
                info.amount - paid
            } else {
                0
            };
            *record = Some(
                StakeInfo {
                    amount: remaining_amount,
                    shares: remaining_shares,
                    staked_at: info.staked_at,
                },
            );
        }
        self.total_staked = self.total_staked - paid;
        self.total_shares = self.total_shares - shares;
        Ok(paid)
    }

    /// Whether `stake(record, amount, ..)` can run: the pool and the record are
    /// well formed, and an accepted deposit keeps every total within `i128`.
    pub fn stake_within_limits(&self, record: &Option<StakeInfo>, amount: i128) -> (ok: bool)
        ensures
            ok == (self.wf() && self.record_fits(*record) && self.stake_in_range(
                *record,
                amount as int,
            )),
    {
        if self.total_staked < 0 || self.total_shares < 0 {
            return false;
        }
        if let Some(info) = *record {
            if info.shares < 0 || info.shares > self.total_shares {
                return false;
            }
        }
        if self.paused || amount <= 0 {
            return true;
        }
        if record.is_none() && self.staker_count >= self.get_config() {
            return true;
        }
        if self.total_staked != 0 && self.total_staked != self.total_shares && amount.checked_mul(
            self.total_shares,
        ).is_none() {
            return false;
        }
        let minted = shares_for_deposit(amount, self.total_staked, self.total_shares);
        if minted == 0 {
            return true;
        }
        if self.total_staked.checked_add(amount).is_none() {
            return false;
        }
        if self.total_shares.checked_add(minted).is_none() {
            return false;
        }
        if let Some(info) = *record {
            if info.amount.checked_add(amount).is_none() {
                return false;
            }
        }
        true
    }

    /// Whether `unstake(record, shares)` can run: the pool and the record are
    /// well formed, and an accepted redemption can price its shares within `i128`.
    pub fn unstake_within_limits(&self, record: &Option<StakeInfo>, shares: i128) -> (ok: bool)
        ensures
            ok == (self.wf() && self.record_fits(*record) && self.unstake_in_range(
                *record,
                shares as int,
            )),
    {
        if self.total_staked < 0 || self.total_shares < 0 {
            return false;
        }
        let info = match *record {
            Some(info) => info,
            None => {
                return true;
            },
        };
        if info.shares < 0 || info.shares > self.total_shares {
            return false;
        }
        if self.paused || shares <= 0 || shares > info.shares || self.total_staked == self.total_shares {
            return true;
        }
        shares.checked_mul(self.total_staked).is_some()
    }

    /// The smallest stake the pool advertises.
    pub fn min_stake() -> (min: i128)
        ensures
            min == MIN_STAKE,
    {
        MIN_STAKE
    }

    /// The storage deposit the pool advertises.
    pub fn storage_deposit() -> (deposit: i128)
        ensures
            deposit == STORAGE_DEPOSIT,
    {
        STORAGE_DEPOSIT
    }
}

/// The position of the staker whose record is `record`: zero for someone who is not staking.
pub fn get_position(record: &Option<StakeInfo>) -> (position: StakePosition)
    ensures
        position == position_of(*record),
{
    match *record {
        Some(info) => StakePosition { amount: info.amount, shares: info.shares },
        None => StakePosition { amount: 0, shares: 0 },
    }
}

/// The tokens recorded for the staker whose record is `record`: zero for someone who is not staking.
pub fn staked_balance(record: &Option<StakeInfo>) -> (amount: i128)
    ensures
        amount == position_of(*record).amount,
{
    match *record {
        Some(info) => info.amount,
        None => 0,
    }
}

/// Whether the staker whose record is `record` is staking.
pub fn is_staker(record: &Option<StakeInfo>) -> (staking: bool)
    ensures
        staking == record.is_some(),
{
    record.is_some()
}

} // verus!
