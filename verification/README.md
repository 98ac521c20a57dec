# exchange_core

The core of a trading exchange backend, written in Verus. The functions in
`src/` carry contracts that Verus proves; the few calls into outside crates
(hashing, ids, decimal text, the lock-free queue, randomness and the clock)
sit behind small trusted wrappers whose doc comments say what is assumed of
them. The properties the design relies on are stated and proved as lemmas
next to the code they speak of.

## Layout

- `src/` — the verified library.
  - Balances and the ledger: `balance`, `ledger` (global and shadow ledgers,
    batches, replay), `null_ledger`, `wal_record` (log record framing),
    `log_files` (segment and snapshot names, retention).
  - Trading: `order_utils`, `order_book` (price-time priority matching),
    `matching_engine` (books per symbol, batches, chained outputs),
    `engine_output` (output records and their hash chain), `fast_ulid`
    (time-ordered ids), `symbol_manager`, `symbol_utils`, `client_order`
    (order validation), `reconciliation`, `settlement` (the version checks
    and balance rows of a trade's settlement), `balance_manager` (request
    amounts to internal units and back), `order_history` (a user's orders
    gathered from settled trades), `order_requests` (engine requests and
    order-log entries).
  - Transfers: `transfer_state`, `transfer_types`, `transfer_coordinator`
    (the step decisions of the transfer state machine), `transfer_queue`,
    `adapters`, `internal_transfer_*`, `mock_tb`, `funding_account`.
  - Small pieces: `api_response`, `balance_requests`, `user_accounts`,
    `configure`, `logging`, `text`, `sorted_keys`.
- `tests/` — tests of the library on concrete values.
- `app/` — a small command-line driver: loads the latest engine snapshot,
  reads orders from JSON, runs the engine, prints outputs and books, drives
  a transfer through the coordinator's decisions, records accepted ledger
  commands to a log, and replays a ledger log from disk.
