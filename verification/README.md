# poker

No-limit hold'em, verified with Verus.

- `src/` is the library. `cards` holds cards, the deck and the hand evaluators;
  `game` the betting engine, the game tree, and what is proved of every hand
  (`game/laws.rs`); `agent` the players; `sim`, `stats` and `report` simulation and
  its figures; `net`, `client`, `transport` and `headless` the client of a live
  server; `viewer` what the window shows; `abstraction` and `solver` the whole
  numbers of the solver; `cli` and `text` the command line.
- `tests/` runs the library.
- `app/` is ordinary Rust around it: terminal, files, sockets, threads, the window,
  and everything that computes with floating-point numbers.

What the library calls in other crates stands behind wrappers whose contracts are
trusted: `src/random.rs` (rand), `src/game/lists.rs` (smallvec), `src/cards/evaluator.rs`
(rs_poker), and lower-casing in `src/text.rs` (std).
