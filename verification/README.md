# perpetual_tables

The tables of an authority that outlive an epoch: objects and their versions, locks, transactions
with their effects and events, root states and markers. The library says what is read from them,
what is written, and what a rollback to an earlier epoch removes, and Verus proves it.

- `src/` is the verified library. `state` gives the tables as maps; `tables`, `locks`, `live_set`
  and `rollback` are the operations on them; the modules named `..._laws` state what holds of several
  operations together. `ordered_table`, `keys` and `batch` are the ordered tables and the writes that take
  effect together. `framework`, `codec` and `compatibility` deal with the packages that a network
  starts with.
- `tests/` runs the library.
- `app/` keeps the tables in a database and connects them to the rest of a node.

Two items are taken on trust: the decoder of `bcs` (in `codec`) and the gas units of
`move_core_types` (in `framework`). Each says above it what is believed of the outside code.
