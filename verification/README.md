# soroban_contracts

Verified models of five Soroban DeFi contracts, written in Verus:

- `governance`: proposals, voting with quorum and approval thresholds,
  delegation, timelocked queueing and execution;
- `staking`: tiered token staking with a per-second reward pool, lock
  periods and early-exit penalties;
- `staking_bonuses`: NFT staking with duration tiers, per-token reward
  accrual, cooldown unstaking and emergency withdrawal;
- `yield_aggregator`: deposits, weighted strategy allocation and
  compounding net of a performance fee;
- `oracle` and `price_aggregator`: price providers and feeds, median and
  weighted aggregation, outlier removal and custom data feeds.

Each contract is a plain state value; every entry point is a verified
transition whose contract states exactly when it succeeds, which error it
returns otherwise (leaving the state unchanged), and what the new state and
result are.  The host environment stays outside: ledger time and sequence,
token balances and voting power come in as arguments, and token transfers or
proposal calls come back as values for the host to carry out.  Addresses are
represented by integer identities (`AccountId`).

Contract state is held in standard vectors and in `kv::KeyedStore`, an
association list with distinct keys kept in insertion order, rather than in
Soroban's `Vec` and `Map`: those are handles into a host `Env`, every read
and write of them is a call into the Soroban host, and they cannot exist
outside one.  A queued proposal stays executable for a grace period of 14
days after its timelock; after that it reads as expired.

Layout:

- `src/` the verified library, one module per contract plus `kv` (an
  association-list store), `arith`, `sorting` and the shared types;
- `tests/` tests of every contract;
- `app/` host-side drivers that connect the verified transitions to a
  Soroban `Env`: authorisation, clock, cross-contract calls and events.
  The drivers hold each contract's state in memory; they are not
  deployable `#[contract]` types.
