# payments_engine

A transactions engine that applies deposits, withdrawals, disputes, resolves
and chargebacks to client accounts, verified with Verus.

- `src/amount.rs`: `Amount`, the mantissa and scale of a `rust_decimal::Decimal`,
  with its value in units of 10^-28; addition, subtraction and comparison are
  done by `rust_decimal` through trusted wrappers whose contracts state when
  the result is exact.
- `src/transaction.rs`, `src/account.rs`: transactions and accounts.
- `src/engine.rs`: the engine's state as maps (`EngineView`), the transition
  each transaction makes (`step`, `run`), and the executable `Engine` proved
  against them.
- `src/laws.rs`: properties of every transition (locked accounts, the one-way
  dispute lifecycle, what a dispute holds and a resolve gives back, ...).
- `src/run_laws.rs`: properties of whole runs (concatenation, locked accounts
  staying as they are, other clients never interfering).
- `src/ledger.rs`: each client's balances in closed form over a run from a new
  engine, and the signs of the balances.
- `app/main.rs`: reads the CSV input, runs the engine, writes the balances.
