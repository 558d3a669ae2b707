use vstd::prelude::*;

verus! {

/// Smallest stake the pool advertises to its users, in token base units.
/// `stake` does not enforce it: a deposit is refused as too small only when it
/// would not buy a single share.
pub const MIN_STAKE: i128 = 10_000_000;

/// Staker cap used until the pool has been configured with `init`.
pub const MAX_STAKERS_DEFAULT: u32 = 10_000;

/// Deposit the pool advertises for the storage a staker's record occupies.
pub const STORAGE_DEPOSIT: i128 = 10_000_000;

/// Why a staking operation was refused.
#[derive(Clone, Copy, Debug, PartialEq, Eq, PartialOrd, Ord, Structural)]
pub enum StakeError {
    /// The deposit is too small to buy a single share.
    BelowMinStake,
    StakerCapReached,
    NotAuthorized,
    AlreadyStaked,
    NotStaked,
    InsufficientBalance,
    InvalidAmount,
    InsufficientShares,
    ZeroShares,
    Paused,
}

/// What the pool records for one staker: the tokens deposited (net of what
/// was paid back), the pool shares held, and when the last deposit was made.
#[derive(Clone, Copy, Debug, PartialEq, Eq, Structural)]
pub struct StakeInfo {
    pub amount: i128,
    pub shares: i128,
    pub staked_at: u64,
}

/// A staker's position as reported to callers: tokens deposited and shares held.
#[derive(Clone, Copy, Debug, PartialEq, Eq, Structural)]
pub struct StakePosition {
    pub amount: i128,
    pub shares: i128,
}

} // verus!
