//! The pool's books against the records of all its stakers.
use vstd::prelude::*;
use vstd::set::fold::{is_fun_commutative, lemma_fold_empty, lemma_fold_insert};

use crate::contract::{staked_record, unstaked_record, StakingContract};
use crate::types::StakeInfo;

verus! {

/// Adds one staker's shares to a running sum.
pub open spec fn add_entry_shares<A>() -> spec_fn(int, (A, StakeInfo)) -> int {
    |sum: int, entry: (A, StakeInfo)| sum + entry.1.shares
}

/// The shares recorded across all stakers of `ledger`, which maps each staker to its record.
pub open spec fn ledger_shares<A>(ledger: Map<A, StakeInfo>) -> int {
    ledger.kv_pairs().fold(0int, add_entry_shares::<A>())
}

/// The pool's books agree with the stakers' records: the shares outstanding are the
/// shares recorded, and the staker count is the number of records.
pub open spec fn books_balanced<A>(pool: StakingContract<A>, ledger: Map<A, StakeInfo>) -> bool {
    &&& ledger.dom().finite()
    &&& pool.total_shares == ledger_shares(ledger)
    &&& pool.staker_count == ledger.dom().len()
}

/// `ledger` once the record of `who` has become `rec` (`None`: no record).
pub open spec fn with_record<A>(ledger: Map<A, StakeInfo>, who: A, rec: Option<StakeInfo>) -> Map<
    A,
    StakeInfo,
> {
    match rec {
        Some(r) => ledger.insert(who, r),
        None => ledger.remove(who),
    }
}

proof fn lemma_kv_pairs_finite<A>(ledger: Map<A, StakeInfo>)
    requires
        ledger.dom().finite(),
    ensures
        ledger.kv_pairs().finite(),
{
    let entry = |k: A| (k, ledger[k]);
    ledger.dom().lemma_map_finite(entry);
    assert forall|e: (A, StakeInfo)| ledger.kv_pairs().contains(e) implies #[trigger] ledger.dom().map(
        entry,
    ).contains(e) by {
        assert(entry(e.0) == e);
    }
    assert(ledger.kv_pairs() =~= ledger.dom().map(entry));
}

proof fn lemma_shares_insert_new<A>(ledger: Map<A, StakeInfo>, who: A, r: StakeInfo)
    requires
        ledger.dom().finite(),
        !ledger.dom().contains(who),
    ensures
        ledger_shares(ledger.insert(who, r)) == ledger_shares(ledger) + r.shares,
{
    lemma_kv_pairs_finite(ledger);
    assert(ledger.insert(who, r).kv_pairs() =~= ledger.kv_pairs().insert((who, r)));
    assert(!ledger.kv_pairs().contains((who, r)));
    let f = add_entry_shares::<A>();
    assert(is_fun_commutative(f));
    lemma_fold_insert(ledger.kv_pairs(), 0int, f, (who, r));
}

proof fn lemma_shares_remove<A>(ledger: Map<A, StakeInfo>, who: A)
    requires
        ledger.dom().finite(),
        ledger.dom().contains(who),
    ensures
        ledger_shares(ledger) == ledger_shares(ledger.remove(who)) + ledger[who].shares,
{
    let rest = ledger.remove(who);
    lemma_shares_insert_new(rest, who, ledger[who]);
    assert(rest.insert(who, ledger[who]) =~= ledger);
}

proof fn lemma_shares_replace<A>(ledger: Map<A, StakeInfo>, who: A, r: StakeInfo)
    requires
        ledger.dom().finite(),
    ensures
        ledger_shares(ledger.insert(who, r)) == ledger_shares(ledger.remove(who)) + r.shares,
{
    let rest = ledger.remove(who);
    lemma_shares_insert_new(rest, who, r);
    assert(rest.insert(who, r) =~= ledger.insert(who, r));
}

proof fn lemma_shares_nonneg<A>(ledger: Map<A, StakeInfo>)
    requires
        ledger.dom().finite(),
        forall|k: A| ledger.dom().contains(k) ==> ledger[k].shares >= 0,
    ensures
        ledger_shares(ledger) >= 0,
    decreases ledger.dom().len(),
{
    if ledger.dom().len() == 0 {
        ledger.dom().lemma_len0_is_empty();
        assert(ledger.kv_pairs() =~= Set::empty());
        lemma_fold_empty(0int, add_entry_shares::<A>());
    } else {
        let k = ledger.dom().choose();
        lemma_shares_remove(ledger, k);
        lemma_shares_nonneg(ledger.remove(k));
    }
}

/// When no record holds a negative number of shares, each record's shares are
/// among the shares recorded across all stakers.
pub proof fn lemma_record_within_ledger<A>(ledger: Map<A, StakeInfo>, who: A)
    requires
        ledger.dom().finite(),
        forall|k: A| ledger.dom().contains(k) ==> ledger[k].shares >= 0,
        ledger.dom().contains(who),
    ensures
        0 <= ledger[who].shares <= ledger_shares(ledger),
{
    lemma_shares_remove(ledger, who);
    lemma_shares_nonneg(ledger.remove(who));
}

/// Staking keeps the books balanced: after `stake` (accepted or refused), the shares
/// outstanding are still the shares recorded across all stakers, and the staker count
/// is still the number of records.
pub proof fn lemma_stake_keeps_books<A>(
    pool: StakingContract<A>,
    ledger: Map<A, StakeInfo>,
    who: A,
    amount: int,
    now: u64,
)
    requires
        books_balanced(pool, ledger),
        pool.wf(),
        pool.record_fits(ledger.get(who)),
        pool.stake_in_range(ledger.get(who), amount),
    ensures
        ({
            let (post, rec) = pool.stake_step(ledger.get(who), amount, now);
            books_balanced(post, with_record(ledger, who, rec))
        }),
{
    let rec = ledger.get(who);
    if pool.stake_refusal(rec, amount) is None {
        let minted = pool.minted_for(amount);
        let r = staked_record(rec, amount, minted, now);
        assert(0 <= minted) by (nonlinear_arith)
            requires
                amount > 0,
                pool.total_staked >= 0,
                pool.total_shares >= 0,
                minted == crate::shares::minted_shares(
                    amount,
                    pool.total_staked as int,
                    pool.total_shares as int,
                ),
        ;
        lemma_shares_replace(ledger, who, r);
        if ledger.dom().contains(who) {
            lemma_shares_remove(ledger, who);
            assert(ledger.insert(who, r).dom() =~= ledger.dom());
        } else {
            assert(ledger.remove(who) =~= ledger);
        }
    } else {
        assert(with_record(ledger, who, rec) =~= ledger);
    }
}

/// Unstaking keeps the books balanced: after `unstake` (accepted or refused), the shares
/// outstanding are still the shares recorded across all stakers, and the staker count
/// is still the number of records.
pub proof fn lemma_unstake_keeps_books<A>(
    pool: StakingContract<A>,
    ledger: Map<A, StakeInfo>,
    who: A,
    shares: int,
)
    requires
        books_balanced(pool, ledger),
        pool.wf(),
        pool.record_fits(ledger.get(who)),
        pool.unstake_in_range(ledger.get(who), shares),
    ensures
        ({
            let (post, rec) = pool.unstake_step(ledger.get(who), shares);
            books_balanced(post, with_record(ledger, who, rec))
        }),
{
    let rec = ledger.get(who);
    if pool.unstake_refusal(rec, shares) is None {
        let held = ledger[who];
        lemma_shares_remove(ledger, who);
        let paid = pool.redeemed_for(shares);
        match unstaked_record(held, shares, paid) {
            Some(r) => {
                lemma_shares_replace(ledger, who, r);
                assert(ledger.insert(who, r).dom() =~= ledger.dom());
            },
            None => {},
        }
    } else {
        assert(with_record(ledger, who, rec) =~= ledger);
    }
}

/// Pausing, unpausing and configuring the cap keep the books balanced: they touch
/// neither the shares outstanding nor the staker count.
pub proof fn lemma_settings_keep_books<A>(
    pool: StakingContract<A>,
    ledger: Map<A, StakeInfo>,
    paused: bool,
    max_stakers: Option<u32>,
)
    requires
        books_balanced(pool, ledger),
    ensures
        books_balanced(StakingContract { paused, max_stakers, ..pool }, ledger),
{
}

} // verus!
