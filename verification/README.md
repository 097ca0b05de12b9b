# mini_blockchain

A small proof-of-work blockchain, verified with Verus: Ed25519-signed
transactions, a transaction pool, account balances, Merkle roots and
inclusion proofs, mining with a miner reward, and whole-chain validation.

- `src/` is the verified library.
  - `crypto/`: SHA-256 (`sha2`), hex (`hex`) and Ed25519 (`ed25519-dalek`),
    each call behind a small trusted wrapper whose contract names its result.
  - `text.rs`: decimal digits, character runs, leading-zero tests.
  - `clock.rs`: the wall clock (nothing is stated of its value).
  - `blockchain/`: accounts, transactions, Merkle trees, blocks and the chain.
- `tests/`: tests of the library.
- `app/`: the demonstration program, JSON storage and printing.

Every function that reads the clock has a companion ending in `_at` that takes
the time as an argument and carries the exact contract.
Where the clock reads earlier than the Unix epoch, the clock-reading functions
answer `None` (or `false`, leaving the chain unchanged) instead of panicking.
