# two_way_peg

Connects two-way peg data, the deposits and withdrawal bundle events that a sidechain reads off its
mainchain, to the chain state, and disconnects it again.

`src/` is the library. It works on a state of plain values, and everything it does is stated in
contracts over mathematical views and proved with Verus.

- `connect`, `disconnect`: what each event, and the data of a block as a whole, does to the state.
- `guard`: the same for data that may not be consistent with the state.
- `collect`, `bundle`: how withdrawal requests become a withdrawal bundle.
- `state`, `output`, `address`, `data`, `error`, `rollback`: the values.
- `table`, `order`, `sum`: ordered tables, the order of their keys, and sums.
- `laws`: what holds of connecting and disconnecting as a whole.

What the library takes from the `bitcoin` crate it takes through a few small functions, each with
the contract that it is trusted to keep: output scripts, the weight and the id of a transaction,
SHA-256 and the addition of amounts.

`app/` keeps the state in LMDB databases. `tests/` holds the tests.
