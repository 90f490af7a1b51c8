# finance_as_code

Moves personal-finance transactions from where they come from (mBank CSV
exports, the Lunch Flow API) through transformers (squashing a date range,
Lua scripts, scripts written by Gemini) into budgeting services (Lunch
Money, and a client of Actual's API). For Treeline only the rows a
transaction becomes are computed; nothing here writes to its database.

The crate is a Verus library: every function under `src/` carries a
contract that Verus proves. Calls into other crates (`rust_decimal`,
`rusty-money`, `chrono`, `uuid`, `encoding_rs`, `csv`, `natord`) go through
small trusted wrappers whose contracts are documented where they stand.

- `src/` — the verified library: the transaction model, money and dates,
  the mBank and Lunch Flow readers, transaction ids, the transaction
  holder, the squasher, Lunch Money and Actual requests and services,
  retry decisions, and the laws that tie them together.
- `app/` — the unverified rest: HTTP clients, file and directory access,
  the Lua interpreter, the Gemini client and the pipeline that runs
  sources, transformers and sinks.
- `tests/` — tests of the library through its public functions.
