# zk_battleship

Battleship between two players who do not trust each other: each player
commits to a secret board as `SHA-256(board || salt)`, and every answer to a
shot (hit or miss, which ship sank, whether the fleet is now defeated) is
computed by a rule over the committed board and the public shot history,
inside a zero-knowledge proof.

This crate is the verified core of the game, written in Verus:

- `src/` holds the rules and their proofs: fleet validity, hit / sunk /
  defeat detection, the canonical commitment preimage, the commit and shot
  rules, the binding of a received answer to the game and turn, player and
  gunner state, board generation, the agent's request checks and game
  decisions, and relay seating. Public proof functions state the laws that
  relate these (order independence and binding of the preimage, who
  `ship_at` / `ship_sunk` name, permanence of defeat, the final shot both
  hits and sinks, a win needs every ship cell).
- `tests/` runs the library on concrete games.
- `app/` is the unverified program around it: the local prover agent
  (HTTP), the WebSocket relay and the benchmark harness. Proving and
  verifying receipts uses the RISC Zero zkVM and its guest images (the
  `methods` crate), which are not part of this crate; `CommitInput::journal`
  and `ShotInput::journal` state the rules those guests apply.
