# ya_payment

The payment bookkeeping of a Golem node, written in Verus: the ledger of agreements,
activities, invoices and debit notes with their running totals, allocations and what is
spent from them, the resolution of what a requestor owes into batch orders, payments and
the documents they settle, and the decisions of the payment endpoints and the command line.
Every function in `src/` carries a contract that Verus proves; a few calls into `bigdecimal`,
`humantime`, `chrono`, `uuid` and `ya-client-model`, and std's `str::to_lowercase`, stand
behind small trusted wrappers whose contracts say what that code does.

Amounts are counts of 10^-18 of the token (`i128`), times are milliseconds since the Unix
epoch (`i64`).

Layout:

- `src/ledger.rs`, `src/dao/`: the stored records and the operations on them
  (`dao/resolve.rs` turns debts into batch orders; `dao/batch.rs` covers them from
  allocations).
- `src/api/`: what the endpoints decide from what they read.
- `src/batch.rs`, `src/cycle.rs`: sending batch orders and the payment cycle.
- `src/platform.rs`, `src/cli.rs`: payment platforms, and what the command line prints.
- `app/`: request parameters and bodies, configuration from the environment, and the
  conversions between exchanged documents and the library's records.
- `tests/`: scenarios run against the compiled library.
