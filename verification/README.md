# soroban_split

A payment splitter: a split names recipients and their shares in basis points
(which add up to 10000); executing it divides a payment among the recipients.

- `src/` is the verified library.
  - `types.rs`: addresses, splits, transfers, errors and events.
  - `shares.rs`: the share sum and the payout arithmetic (rounding down,
    skipping parts that round to zero).
  - `ops.rs`: the decisions taken on one stored split (create, update,
    deactivate, reactivate, execute), each stated by a spec function.
  - `contract.rs`: the contract's storage (admin, counter, splits by id, the
    event log) with the contract's public operations.
  - `laws.rs`: properties spanning the operations, proved.
- `app/` is the Soroban contract around the library: authentication, ledger
  storage, token transfers and events.
- `tests/` runs the library on concrete values.
