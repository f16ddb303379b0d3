# stellarflow

The rules of the StellarFlow Soroban contracts, verified with Verus.

- `src/address.rs` — addresses and 32-byte keys as byte strings; comparison,
  copying and order-preserving de-duplication.
- `src/amm.rs` — the liquidity pool: initialization, the sizing of a deposit
  (`plan_deposit`) and the deposit itself, with the pool's invariant and the
  laws that a deposit takes no more than offered, mints at least the minimum,
  never dilutes earlier holders and never shrinks the pool.
- `src/governance.rs` — the weighted multi-signature quorum, key and validator
  rotation, signer weights, fee tiers, the fee split and the treasury vault,
  with the laws that tie them together.
- `src/ballot.rs` — voting ballots: one per proposal, one vote per voter.
- `app/` — the Soroban contracts around the library: storage, authorization,
  token transfers and events.
- `tests/` — scenarios and concrete instances of the laws.

## Collections

The contracts keep the signer set, the signer weights, the validator set and
ballot votes on the ledger in Soroban `Map`s. A Soroban `Map` is a handle to
an object inside the Soroban host: it holds an `Env`, every operation is a
host call, and its keys are host values (`Address`, `BytesN`) that the library
cannot hold as plain values. The library therefore keeps these collections in
`Vec`s, with verified lookup, de-duplication and ordering, and states them as
sets and maps in its contracts; `app/` converts between the two when it reads
and writes storage. `get_validator_set` lists the keys in ascending byte
order, as the host's `Map` does; a ballot lists its votes in the order they
were cast, and `app/` stores them back into a `Map`.

## Signer weights

`max_signer_weight` is the most weight any single signer can hold:
`set_signer_weight` caps a larger weight at it, and a signer whose recorded
weight is above a lowered maximum holds (and brings to a quorum) only the
maximum.
