# reconchess-rs

Rules layer of Reconnaissance Blind Chess (RBC), written in Verus: every
function carries a contract that Verus proves.

Layout:

- `src/types.rs` — squares, pieces, moves, configuration, sense shapes,
  statuses, history entries and the error type.
- `src/bits.rs`, `src/attack_tables.rs` — bitboards and the attack
  geometry of each piece, stated over file/rank coordinates.
- `src/position.rs` — the board state and its FEN output; `src/fen.rs` —
  the FEN grammar and its parsers; `src/fen_round_trip.rs` — the proof
  that reading FEN output gives back the position.
- `src/rules.rs` — the RBC rules as spec functions: which requests a
  player may make from their own-piece view, how a request is revised
  against the true board, what a taken move does, and adjudication.
- `src/game.rs` — the game driver (`Game`): sensing, move actions, move
  resolution, resignation and timeouts, history, and the stored form of a
  game (`GameSnapshot`).
- `src/laws.rs` — properties that span several operations, as proof
  functions.
- `app/lib.rs` — serde forms of the library types and `std::error::Error`
  for its error type (not seen by Verus).
- `tests/` — the test suite.
