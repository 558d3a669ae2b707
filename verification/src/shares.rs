use vstd::prelude::*;

verus! {

/// Number of pool shares that a deposit of `amount` tokens buys when the pool
/// holds `total_staked` tokens against `total_shares` outstanding shares.
///
/// An empty pool (no tokens or no shares) prices one share at one token;
/// otherwise shares are issued pro rata, rounded down.
pub open spec fn minted_shares(amount: int, total_staked: int, total_shares: int) -> int {
    if total_staked == 0 || total_shares == 0 {
        amount
    } else {
        amount * total_shares / total_staked
    }
}

/// Number of tokens that `shares` pool shares redeem for, pro rata, rounded down.
pub open spec fn redeemed_amount(shares: int, total_staked: int, total_shares: int) -> int {
    shares * total_staked / total_shares
}

/// Computes `minted_shares` in machine integers; at one token per share it needs
/// no multiplication.
pub fn shares_for_deposit(amount: i128, total_staked: i128, total_shares: i128) -> (minted: i128)
    requires
        0 <= amount,
        0 <= total_staked,
        0 <= total_shares,
        total_staked != 0 && total_staked != total_shares ==> amount * total_shares <= i128::MAX,
    ensures
        minted == minted_shares(amount as int, total_staked as int, total_shares as int),
        0 <= minted,
{
    if total_staked == 0 || total_shares == 0 {
        amount
    } else if total_staked == total_shares {
        assert(amount * total_shares / (total_staked as int) == amount) by (nonlinear_arith)
            requires total_staked == total_shares, total_staked > 0;
        amount
    } else {
        assert(0 <= amount * total_shares) by (nonlinear_arith)
            requires 0 <= amount, 0 <= total_shares;
        let product = amount * total_shares;
        product / total_staked
    }
}

/// Computes `redeemed_amount` in machine integers; a redemption never pays out
/// more than the pool holds. At one token per share it needs no multiplication.
pub fn tokens_for_shares(shares: i128, total_staked: i128, total_shares: i128) -> (paid: i128)
    requires
        0 < shares <= total_shares,
        0 <= total_staked,
        total_staked != total_shares ==> shares * total_staked <= i128::MAX,
    ensures
        paid == redeemed_amount(shares as int, total_staked as int, total_shares as int),
        0 <= paid <= total_staked,
{
    if total_staked == total_shares {
        assert(shares * total_staked / (total_shares as int) == shares) by (nonlinear_arith)
            requires total_staked == total_shares, total_shares > 0;
        return shares;
    }
    assert(0 <= shares * total_staked <= total_shares * total_staked) by (nonlinear_arith)
        requires 0 < shares <= total_shares, 0 <= total_staked;
    assert((shares * total_staked) / (total_shares as int) <= total_staked) by (nonlinear_arith)
        requires
            0 <= shares * total_staked <= total_shares * total_staked,
            0 < total_shares;
    let product = shares * total_staked;
    product / total_shares
}

} // verus!
