//! Seating in the rooms of the message relay: two seats per room, the
//! first free seat taken on joining, and a room dropped once both seats are
//! empty. What a seat holds (a channel to the player) is up to the caller.

use vstd::prelude::*;
use vstd::string::{StrSliceExecFns, StringExecFns};
use crate::text::{trim, trimmed};

verus! {

/// Longest room code accepted, in characters.
pub const MAX_ROOM_CODE_LEN: usize = 64;

/// A room code must hold between 1 and 64 characters (after trimming).
pub fn room_code_ok(code: &str) -> (ok: bool)
    ensures
        ok == (0 < code@.len() <= MAX_ROOM_CODE_LEN),
{
    let n = code.unicode_len();
    n != 0 && n <= MAX_ROOM_CODE_LEN
}

/// What a relay does with a client's first messages.
pub enum JoinStep {
    /// The message is not a join: the client is told what to send first.
    NotJoin,
    /// A join whose room code, trimmed, is empty or too long: the client is
    /// told so and may try again.
    BadRoomCode,
    /// A join to the room with this (trimmed) code.
    Join(String),
}

/// The room code a join names: its room text trimmed of white space, or
/// empty when there is none.
pub open spec fn joined_code(room: Option<&str>) -> Seq<char> {
    match room {
        Some(r) => trim(r@),
        None => seq![],
    }
}

/// Decides on a message of type `kind` naming room `room`, sent by a client
/// that has not joined a room yet.
pub fn join_step(kind: &str, room: Option<&str>) -> (j: JoinStep)
    ensures
        kind@ != "join"@ ==> j is NotJoin,
        kind@ == "join"@ && !(0 < joined_code(room).len() <= MAX_ROOM_CODE_LEN) ==> j is BadRoomCode,
        kind@ == "join"@ && 0 < joined_code(room).len() <= MAX_ROOM_CODE_LEN ==> (j matches JoinStep::Join(
            c,
        ) && c@ == joined_code(room)),
{
    let join = String::from_str("join");
    if String::from_str(kind) != join {
        return JoinStep::NotJoin;
    }
    let code: &str = match room {
        Some(r) => trimmed(r),
        None => "",
    };
    proof {
        reveal_strlit("");
    }
    if !room_code_ok(code) {
        return JoinStep::BadRoomCode;
    }
    JoinStep::Join(String::from_str(code))
}

/// A relay room with its two seats.
pub struct Room<T> {
    pub seats: [Option<T>; 2],
}

impl<T> Room<T> {
    /// An empty room.
    pub fn new() -> (r: Self)
        ensures
            r.seats@[0] is None,
            r.seats@[1] is None,
    {
        Room { seats: [None, None] }
    }

    /// Places a player into the room: returns their seat (0 or 1) and whether
    /// the other seat is already occupied; `None`, with the room unchanged,
    /// if both seats are taken.
    pub fn seat(&mut self, occupant: T) -> (r: Option<(usize, bool)>)
        ensures
            old(self).seats@[0] is None ==> r == Some((0usize, old(self).seats@[1] is Some))
                && final(self).seats@ == old(self).seats@.update(0, Some(occupant)),
            old(self).seats@[0] is Some && old(self).seats@[1] is None ==> r == Some((1usize, true))
                && final(self).seats@ == old(self).seats@.update(1, Some(occupant)),
            old(self).seats@[0] is Some && old(self).seats@[1] is Some ==> r is None
                && final(self).seats@ == old(self).seats@,
    {
        let seat: usize = if self.seats[0].is_none() {
            0
        } else if self.seats[1].is_none() {
            1
        } else {
            return None;
        };
        let opponent_present = self.seats[1 - seat].is_some();
        if seat == 0 {
            self.seats = [Some(occupant), self.seats[1].take()];
        } else {
            self.seats = [self.seats[0].take(), Some(occupant)];
        }
        Some((seat, opponent_present))
    }

    /// The occupant of the seat opposite `seat`, if any.
    pub fn opponent(&self, seat: usize) -> (o: &Option<T>)
        requires
            seat < 2,
        ensures
            *o == self.seats@[1 - seat],
    {
        &self.seats[1 - seat]
    }

    /// Frees `seat`; returns whether the room is now empty and can be dropped.
    pub fn leave(&mut self, seat: usize) -> (empty: bool)
        requires
            seat < 2,
        ensures
            final(self).seats@ == old(self).seats@.update(seat as int, None),
            empty == (final(self).seats@[0] is None && final(self).seats@[1] is None),
    {
        if seat == 0 {
            self.seats = [None, self.seats[1].take()];
        } else {
            self.seats = [self.seats[0].take(), None];
        }
        self.seats[0].is_none() && self.seats[1].is_none()
    }
}

} // verus!
