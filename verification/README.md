# staking

A share-based staking pool whose bookkeeping is proved with Verus.

Stakers deposit tokens and receive pool shares at the pool's current price
(one share per token while the pool is empty, pro rata afterwards, rounded
down); redeeming shares pays out their pro-rata value, rounded down. The pool
can be paused by its administrator, caps the number of stakers, and keeps one
record per staker.

- `src/` — the verified library.
  - `types.rs`: errors, the per-staker record, the reported position, the advertised constants.
  - `shares.rs`: pricing of deposits and redemptions.
  - `contract.rs`: the pool state and its operations, each with an exact contract.
  - `books.rs`: the shares outstanding equal the shares recorded across all stakers, and the staker
    count equals the number of records, across every operation.
  - `history.rs`: what holds of every state that calls reach from a freshly deployed pool: one token
    per share, each record holding exactly the staker's net deposits, the staker cap respected.
  - `pool_laws.rs`: pausing, the staker cap, share value never diluted, deposit-and-withdraw round trips.
- `tests/` — executable tests of the library.
- `app/` — the Soroban contract: instance storage, authorisation, token transfers and events
  around the library.
