//! Share-based staking pool: the bookkeeping of a staking contract, verified.

pub mod books;
pub mod contract;
pub mod history;
pub mod operation_laws;
pub mod pool_laws;
pub mod shares;
pub mod types;

pub use contract::{get_position, is_staker, staked_balance, StakingContract};
pub use types::{StakeError, StakeInfo, StakePosition};
