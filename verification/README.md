# moonblokz-vote

Verified MoonBlokz vote engine: a per-node accumulated-vote registry with checked
forward accumulation, capped anti-capture interest, exact rollback, balance-block
seeding, creator reset, and selection of the next eligible creator.

- `src/` is the library, proved with Verus. `engine.rs` holds `VoteEngine`;
  `growth.rs`, `transition.rs` and `order.rs` say what interest, blocks and the
  creator order are; `laws.rs` proves what holds across blocks, above all that undoing
  a chain of blocks restores the votes it was applied to.
- `tests/` runs the library on concrete blocks.
- `app/` reads `moonblokz-chain-types` blocks and hands them to the engine.

The engine allocates nothing and holds no randomness. Vote targets are taken from the
transactions as they are; choosing them is not part of this library.
