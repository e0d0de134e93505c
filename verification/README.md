# exchange_engine

The matching engine of a small exchange, written in Verus.

- `src/` is the verified library: the order book and its matching passes,
  depth aggregation, user balances (locking, on-ramp, settlement of fills),
  the engine that ties books and balances together, the messages it sends to
  the API and to the database, and decimal text for prices and quantities.
  Every public function carries a contract, and the `law_*` proof functions
  state what holds across calls.
- `tests/` runs the library on concrete values.
- `app/` is the program around it: Redis queues and pub/sub, the Postgres
  writer, the HTTP routes and the WebSocket fan-out. It converts between the
  library's types and their serde copies and calls the library for every
  decision.

Prices, quantities and balances are integers in the library (whole units).
The program's JSON forms in `app/wire.rs` carry order prices and
quantities, fill prices and balances as floating-point numbers, so a
snapshot file with such numbers loads; a fractional part is dropped on the
way in.
