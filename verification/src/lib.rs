//! Battleship played with committed boards, where every answer is backed by
//! a proof.
//!
//! - `ship`, `fleet`: fleet validity and hit / sunk / defeat detection over
//!   the public shot history, with fixed-shape loops.
//! - `preimage`, `commitment`: the canonical bytes a board commitment is
//!   computed from, and the commitment itself (SHA-256).
//! - `messages`: the inputs and journals of the commit and shot proofs, the
//!   rules that compute a journal, and the binding of a received journal to
//!   the current game and turn.
//! - `fleet_laws`: laws relating the fleet queries.
//! - `game`, `session`, `requests`: player state, the computer's gunner, and
//!   the decisions of the local agent.
//! - `board_gen`, `random`: random boards and salts.
//! - `relay`: seating in the rooms of the message relay.

pub mod ship;
pub mod fleet;
pub mod preimage;
pub mod fleet_laws;
pub mod commitment;
pub mod messages;
pub mod random;
pub mod board_gen;
pub mod game;
pub mod text;
pub mod requests;
pub mod session;
pub mod relay;
