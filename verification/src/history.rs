//! What holds of every state that a sequence of calls reaches from a freshly deployed pool.
use vstd::prelude::*;

use crate::books::{
    books_balanced, lemma_record_within_ledger, lemma_settings_keep_books, lemma_stake_keeps_books,
    lemma_unstake_keeps_books, with_record,
};
use crate::contract::{position_of, StakingContract};
use crate::pool_laws::{lemma_parity_persists, lemma_stake_respects_cap};
use crate::types::StakeInfo;

verus! {

/// A call on the contract. `Stake` carries the staker, the amount and the time of
/// the call; `Unstake` the staker and the number of shares.
pub enum Call<A> {
    Init(u32),
    Pause,
    Unpause,
    Stake(A, i128, u64),
    Unstake(A, i128),
}

/// The pool as it is deployed for `token`, administered by `admin`.
pub open spec fn fresh_pool<A>(admin: A, token: A) -> StakingContract<A> {
    StakingContract {
        admin,
        token,
        paused: false,
        max_stakers: None,
        staker_count: 0,
        total_staked: 0,
        total_shares: 0,
    }
}

/// What the stakers `net` shows for `who`: their deposits minus what was paid out to them.
pub open spec fn net_of<A>(net: Map<A, int>, who: A) -> int {
    if net.dom().contains(who) {
        net[who]
    } else {
        0
    }
}

/// The effect of one call on the pool, on the stakers' records, and on each staker's
/// net deposits (deposits accepted minus payouts made).
///
/// A refused call changes nothing. So does a call that cannot run (`init` on a
/// configured pool, a deposit or withdrawal whose arithmetic leaves `i128`): it aborts.
pub open spec fn apply_call<A>(
    state: (StakingContract<A>, Map<A, StakeInfo>, Map<A, int>),
    call: Call<A>,
) -> (StakingContract<A>, Map<A, StakeInfo>, Map<A, int>) {
    let (pool, ledger, net) = state;
    match call {
        Call::Init(m) => if pool.max_stakers is None {
            (StakingContract { max_stakers: Some(m), ..pool }, ledger, net)
        } else {
            state
        },
        Call::Pause => (StakingContract { paused: true, ..pool }, ledger, net),
        Call::Unpause => (StakingContract { paused: false, ..pool }, ledger, net),
        Call::Stake(who, amount, now) => {
            let rec = ledger.get(who);
            if pool.wf() && pool.record_fits(rec) && pool.stake_in_range(rec, amount as int) {
                let (post, rec2) = pool.stake_step(rec, amount as int, now);
                let net2 = match pool.stake_reply(rec, amount as int) {
                    Ok(_) => net.insert(who, net_of(net, who) + amount),
                    Err(_) => net,
                };
                (post, with_record(ledger, who, rec2), net2)
            } else {
                state
            }
        },
        Call::Unstake(who, shares) => {
            let rec = ledger.get(who);
            if pool.wf() && pool.record_fits(rec) && pool.unstake_in_range(rec, shares as int) {
                let (post, rec2) = pool.unstake_step(rec, shares as int);
                let net2 = match pool.unstake_reply(rec, shares as int) {
                    Ok(paid) => net.insert(who, net_of(net, who) - paid),
                    Err(_) => net,
                };
                (post, with_record(ledger, who, rec2), net2)
            } else {
                state
            }
        },
    }
}

/// The state after `calls`, in order, from `start`.
pub open spec fn run<A>(
    start: (StakingContract<A>, Map<A, StakeInfo>, Map<A, int>),
    calls: Seq<Call<A>>,
) -> (StakingContract<A>, Map<A, StakeInfo>, Map<A, int>)
    decreases calls.len(),
{
    if calls.len() == 0 {
        start
    } else {
        apply_call(run(start, calls.drop_last()), calls.last())
    }
}

/// The state in which a freshly deployed pool starts: no record, nothing deposited.
pub open spec fn deployed<A>(admin: A, token: A) -> (
    StakingContract<A>,
    Map<A, StakeInfo>,
    Map<A, int>,
) {
    (fresh_pool(admin, token), Map::empty(), Map::empty())
}

/// Every `init` among `calls` that takes effect (the cap was not yet configured)
/// configures a cap no smaller than the staker count at that moment (as when it
/// comes before any accepted deposit).
pub open spec fn inits_within_cap<A>(
    start: (StakingContract<A>, Map<A, StakeInfo>, Map<A, int>),
    calls: Seq<Call<A>>,
) -> bool
    decreases calls.len(),
{
    calls.len() == 0 || (inits_within_cap(start, calls.drop_last()) && (calls.last() matches Call::Init(
        m,
    ) ==> (run(start, calls.drop_last()).0.max_stakers is None ==> run(
        start,
        calls.drop_last(),
    ).0.staker_count <= m)))
}

/// The books of a state reached from deployment: balanced, one token per share, and
/// every record holding as many tokens as shares, more than none, and exactly the
/// staker's net deposits.
pub open spec fn accounts_square<A>(state: (StakingContract<A>, Map<A, StakeInfo>, Map<A, int>)) -> bool {
    let (pool, ledger, net) = state;
    &&& books_balanced(pool, ledger)
    &&& pool.wf()
    &&& pool.total_staked == pool.total_shares
    &&& forall|a: A| #[trigger]
        ledger.dom().contains(a) ==> {
            &&& ledger[a].amount == ledger[a].shares
            &&& ledger[a].shares > 0
            &&& ledger[a].amount == net_of(net, a)
        }
    &&& forall|a: A| !ledger.dom().contains(a) ==> #[trigger] net_of(net, a) == 0
}

proof fn lemma_call_keeps_accounts<A>(
    state: (StakingContract<A>, Map<A, StakeInfo>, Map<A, int>),
    call: Call<A>,
)
    requires
        accounts_square(state),
    ensures
        accounts_square(apply_call(state, call)),
{
    let (pool, ledger, net) = state;
    match call {
        Call::Init(m) => {
            lemma_settings_keep_books(pool, ledger, pool.paused, Some(m));
        },
        Call::Pause => {
            lemma_settings_keep_books(pool, ledger, true, pool.max_stakers);
        },
        Call::Unpause => {
            lemma_settings_keep_books(pool, ledger, false, pool.max_stakers);
        },
        Call::Stake(who, amount, now) => {
            let rec = ledger.get(who);
            if pool.wf() && pool.record_fits(rec) && pool.stake_in_range(rec, amount as int) {
                lemma_stake_keeps_books(pool, ledger, who, amount as int, now);
                lemma_parity_persists(pool, rec, amount as int, 0, now);
                if pool.stake_refusal(rec, amount as int) is None {
                    let (post, rec2) = pool.stake_step(rec, amount as int, now);
                    let ledger2 = with_record(ledger, who, rec2);
                    let net2 = net.insert(who, net_of(net, who) + amount);
                    assert forall|a: A| #[trigger] ledger2.dom().contains(a) implies {
                        &&& ledger2[a].amount == ledger2[a].shares
                        &&& ledger2[a].shares > 0
                        &&& ledger2[a].amount == net_of(net2, a)
                    } by {
                        if a != who {
                            assert(ledger.dom().contains(a));
                        }
                    }
                    assert forall|a: A| !ledger2.dom().contains(a) implies #[trigger] net_of(net2, a)
                        == 0 by {
                        assert(a != who);
                        assert(!ledger.dom().contains(a));
                        assert(net_of(net, a) == 0);
                    }
                } else {
                    assert(with_record(ledger, who, rec) =~= ledger);
                }
            }
        },
        Call::Unstake(who, shares) => {
            let rec = ledger.get(who);
            if pool.wf() && pool.record_fits(rec) && pool.unstake_in_range(rec, shares as int) {
                lemma_unstake_keeps_books(pool, ledger, who, shares as int);
                lemma_parity_persists(pool, rec, 0, shares as int, 0);
                if pool.unstake_refusal(rec, shares as int) is None {
                    let (post, rec2) = pool.unstake_step(rec, shares as int);
                    let ledger2 = with_record(ledger, who, rec2);
                    let net2 = net.insert(who, net_of(net, who) - shares);
                    assert(pool.redeemed_for(shares as int) == shares);
                    assert forall|a: A| #[trigger] ledger2.dom().contains(a) implies {
                        &&& ledger2[a].amount == ledger2[a].shares
                        &&& ledger2[a].shares > 0
                        &&& ledger2[a].amount == net_of(net2, a)
                    } by {
                        if a != who {
                            assert(ledger.dom().contains(a));
                        }
                    }
                    assert forall|a: A| !ledger2.dom().contains(a) implies #[trigger] net_of(net2, a)
                        == 0 by {
                        if a != who {
                            assert(!ledger.dom().contains(a));
                            assert(net_of(net, a) == 0);
                        } else {
                            assert(ledger.dom().contains(who));
                        }
                    }
                } else {
                    assert(with_record(ledger, who, rec) =~= ledger);
                }
            }
        },
    }
}

/// From any state whose books square (balanced books, one token per share, and every
/// record holding as many tokens as shares, more than none, and exactly the staker's
/// net deposits), every sequence of calls leads to a state whose books square.
pub proof fn lemma_calls_keep_accounts<A>(
    start: (StakingContract<A>, Map<A, StakeInfo>, Map<A, int>),
    calls: Seq<Call<A>>,
)
    requires
        accounts_square(start),
    ensures
        accounts_square(run(start, calls)),
    decreases calls.len(),
{
    if calls.len() > 0 {
        lemma_calls_keep_accounts(start, calls.drop_last());
        lemma_call_keeps_accounts(run(start, calls.drop_last()), calls.last());
    }
}

proof fn lemma_deployed_accounts_square<A>(admin: A, token: A)
    ensures
        accounts_square(deployed(admin, token)),
{
    let (pool, ledger, net) = deployed(admin, token);
    assert(ledger.kv_pairs() =~= Set::empty());
    vstd::set::fold::lemma_fold_empty(0int, crate::books::add_entry_shares::<A>());
}

/// `init` on a pool whose cap is configured aborts and changes nothing; once
/// configured, the cap stays as it was through every sequence of calls (the first
/// `init` wins).
pub proof fn lemma_configured_cap_is_final<A>(
    start: (StakingContract<A>, Map<A, StakeInfo>, Map<A, int>),
    m: u32,
    calls: Seq<Call<A>>,
)
    requires
        start.0.max_stakers is Some,
    ensures
        apply_call(start, Call::Init(m)) == start,
        run(start, calls).0.max_stakers == start.0.max_stakers,
    decreases calls.len(),
{
    if calls.len() > 0 {
        lemma_configured_cap_is_final(start, m, calls.drop_last());
    }
}

/// In every state that calls reach from a freshly deployed pool:
/// - the staker count is the number of stakers holding a record (whoever staked
///   several times counts once), and the shares outstanding are the shares recorded;
/// - the pool holds one token per share;
/// - a deposit or withdrawal can fail to run only on `i128` arithmetic, never on an
///   ill-formed pool or record;
/// - each staker's recorded amount (zero without a record) is exactly what the staker
///   deposited minus what was paid out to them, and a record, while present, holds
///   as many tokens as shares and more than none.
pub proof fn lemma_reached_states<A>(admin: A, token: A, calls: Seq<Call<A>>)
    ensures
        ({
            let (pool, ledger, net) = run(deployed(admin, token), calls);
            &&& books_balanced(pool, ledger)
            &&& pool.total_staked == pool.total_shares
            &&& pool.wf()
            &&& forall|a: A| #[trigger] pool.record_fits(ledger.get(a))
            &&& forall|a: A| #[trigger] position_of(ledger.get(a)).amount == net_of(net, a)
            &&& forall|a: A|
                #[trigger] ledger.get(a) matches Some(r) ==> r.amount == r.shares && r.amount > 0
        }),
{
    lemma_deployed_accounts_square(admin, token);
    lemma_calls_keep_accounts(deployed(admin, token), calls);
    let (pool, ledger, net) = run(deployed(admin, token), calls);
    assert forall|a: A| #[trigger] pool.record_fits(ledger.get(a)) by {
        if ledger.dom().contains(a) {
            lemma_record_within_ledger(ledger, a);
        }
    }
}

/// In every state that calls reach from a freshly deployed pool, the staker count
/// stays within the cap in force, provided every `init` that takes effect configures
/// a cap no smaller than the staker count at that moment (as when it comes before any
/// accepted deposit).
pub proof fn lemma_staker_cap_holds<A>(admin: A, token: A, calls: Seq<Call<A>>)
    requires
        inits_within_cap(deployed(admin, token), calls),
    ensures
        run(deployed(admin, token), calls).0.staker_count <= run(deployed(admin, token), calls).0.cap(),
    decreases calls.len(),
{
    if calls.len() > 0 {
        let start = deployed(admin, token);
        lemma_staker_cap_holds(admin, token, calls.drop_last());
        let (pool, ledger, net) = run(start, calls.drop_last());
        match calls.last() {
            Call::Stake(who, amount, now) => {
                lemma_stake_respects_cap(pool, ledger.get(who), amount as int, now);
            },
            _ => {},
        }
    }
}

} // verus!
