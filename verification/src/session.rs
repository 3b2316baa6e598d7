//! The decisions of a game in progress: a game against the computer, and
//! one side of a game between two players. The proving and verifying of
//! receipts happens outside; these functions take its results and decide.

use vstd::prelude::*;
use vstd::string::StringExecFns;
use rand::rngs::StdRng;
use crate::fleet::{fleet_covers, fleet_is_valid, fleet_sunk_by, select_kind, sunk_select, Fleet};
use crate::game::{last_untried, new_neighbours, on_board, shot_in, Gunner, Player};
use crate::messages::digest_eq;
use crate::requests::{check_coords, RequestError};
use crate::ship::{ShipKind, Shot, BOARD_SIZE, NUM_SHIPS};

verus! {

/// Why a move in a game is refused; each maps to an HTTP status code.
#[derive(Clone, Copy, PartialEq, Eq, Debug, Structural)]
pub enum MoveError {
    /// The game has already ended.
    GameOver,
    /// Coordinates outside the board.
    BadCoordinates,
    /// The player already fired at that cell.
    AlreadyFired,
    /// The cell was already fired at, and answered.
    AlreadyAnswered,
    /// The opponent's commitment does not match its proof.
    CommitmentMismatch,
    /// The opponent sent back this player's own commitment.
    EchoedCommitment,
    /// The opponent's commitment has not been verified yet.
    OpponentNotCommitted,
}

impl MoveError {
    /// The HTTP status code of the error.
    pub fn status(&self) -> (code: u16)
        ensures
            code == match *self {
                MoveError::GameOver => 409u16,
                MoveError::AlreadyAnswered => 409u16,
                MoveError::OpponentNotCommitted => 409u16,
                _ => 400u16,
            },
    {
        match self {
            MoveError::GameOver => 409,
            MoveError::AlreadyAnswered => 409,
            MoveError::OpponentNotCommitted => 409,
            _ => 400,
        }
    }
}

/// The message shown for a refused move.
pub open spec fn move_error_text(e: MoveError) -> Seq<char> {
    match e {
        MoveError::GameOver => "game is already over"@,
        MoveError::BadCoordinates => "coordinates must be 0..9"@,
        MoveError::AlreadyFired => "you already fired at that cell"@,
        MoveError::AlreadyAnswered => "that cell was already fired at"@,
        MoveError::CommitmentMismatch => "commitment does not match its proof"@,
        MoveError::EchoedCommitment => "opponent echoed your own commitment"@,
        MoveError::OpponentNotCommitted => "verify the opponent's commitment before verifying their shots"@,
    }
}

impl MoveError {
    /// The message shown for the error.
    pub fn message(&self) -> (m: String)
        ensures
            m@ == move_error_text(*self),
    {
        match self {
            MoveError::GameOver => String::from_str("game is already over"),
            MoveError::BadCoordinates => String::from_str("coordinates must be 0..9"),
            MoveError::AlreadyFired => String::from_str("you already fired at that cell"),
            MoveError::AlreadyAnswered => String::from_str("that cell was already fired at"),
            MoveError::CommitmentMismatch => String::from_str("commitment does not match its proof"),
            MoveError::EchoedCommitment => String::from_str("opponent echoed your own commitment"),
            MoveError::OpponentNotCommitted => String::from_str(
                "verify the opponent's commitment before verifying their shots",
            ),
        }
    }
}

/// Does `shots` contain `shot`?
fn shots_contain(shots: &Vec<Shot>, shot: Shot) -> (found: bool)
    ensures
        found == shot_in(shots@, shot),
{
    let mut k: usize = 0;
    while k < shots.len()
        invariant
            k <= shots@.len(),
            forall|j: int| 0 <= j < k ==> shots@[j] != shot,
        decreases shots@.len() - k,
    {
        if shots[k] == shot {
            return true;
        }
        k = k + 1;
    }
    false
}

/// A game against the computer. The computer's answers to the human's
/// shots are proven; the human's own board is answered locally.
pub struct Game {
    pub ai: Player,
    pub human_fleet: Fleet,
    pub ai_gun: Gunner,
    /// Shots the human has fired at the computer, in order (the history the
    /// computer's proofs must be computed against).
    pub human_fired: Vec<Shot>,
    /// Shots the computer has fired at the human, in order.
    pub ai_fired: Vec<Shot>,
    pub over: bool,
}

/// The computer's shot and what it did to the human's fleet.
pub struct AiShot {
    pub shot: Shot,
    pub hit: bool,
    pub sunk: Option<ShipKind>,
    /// The human's fleet is now fully sunk.
    pub ai_won: bool,
}

impl Game {
    /// A consistent game: the human fleet is legal, the gunner has fired
    /// exactly the computer's shots, and a game that is not over has a
    /// human fleet that is not yet sunk.
    pub open spec fn wf(self) -> bool {
        &&& fleet_is_valid(self.human_fleet.placements@)
        &&& self.ai_gun.wf()
        &&& self.ai_gun.fired() == self.ai_fired@
        &&& !self.over ==> !fleet_sunk_by(self.human_fleet.placements@, self.ai_fired@)
    }

    /// A new game, with no shot fired.
    pub fn new(ai: Player, human_fleet: Fleet) -> (g: Self)
        requires
            fleet_is_valid(human_fleet.placements@),
        ensures
            g.wf(),
            g.ai == ai,
            g.human_fleet == human_fleet,
            g.human_fired@ == Seq::<Shot>::empty(),
            g.ai_fired@ == Seq::<Shot>::empty(),
            !g.over,
    {
        let g = Game {
            ai,
            human_fleet,
            ai_gun: Gunner::new(),
            human_fired: Vec::new(),
            ai_fired: Vec::new(),
            over: false,
        };
        proof {
            let fs = g.human_fleet.placements@;
            assert(crate::fleet::one_of_each(fs));
            assert(crate::fleet::kind_count(fs, fs[0].ship, fs.len() as int) == 1);
            assert(fs[0].ship.spec_len() >= 2);
            assert(!crate::fleet::history_has(Seq::<Shot>::empty(), fs[0].spec_cell(0).0, fs[0].spec_cell(0).1));
        }
        g
    }

    /// Checks a shot the human wants to fire: the game must not be over, the
    /// cell must be on the board and not fired at before.
    pub fn check_fire(&self, row: u8, col: u8) -> (r: Result<Shot, MoveError>)
        ensures
            self.over ==> r == Err::<Shot, MoveError>(MoveError::GameOver),
            !self.over && !(row < BOARD_SIZE && col < BOARD_SIZE) ==> r == Err::<Shot, MoveError>(
                MoveError::BadCoordinates,
            ),
            !self.over && row < BOARD_SIZE && col < BOARD_SIZE && shot_in(
                self.human_fired@,
                Shot { row, col },
            ) ==> r == Err::<Shot, MoveError>(MoveError::AlreadyFired),
            !self.over && row < BOARD_SIZE && col < BOARD_SIZE && !shot_in(
                self.human_fired@,
                Shot { row, col },
            ) ==> r == Ok::<Shot, MoveError>(Shot { row, col }),
    {
        if self.over {
            return Err(MoveError::GameOver);
        }
        let shot = match check_coords(row, col) {
            Ok(s) => s,
            Err(_) => {
                return Err(MoveError::BadCoordinates);
            },
        };
        if shots_contain(&self.human_fired, shot) {
            return Err(MoveError::AlreadyFired);
        }
        Ok(shot)
    }

    /// Records the human's shot once the computer's proven answer to it has
    /// been verified; a proven defeat ends the game.
    pub fn record_human_shot(&mut self, shot: Shot, defeated: bool)
        requires
            old(self).wf(),
        ensures
            final(self).wf(),
            final(self).human_fired@ == old(self).human_fired@.push(shot),
            final(self).over == (old(self).over || defeated),
            final(self).ai == old(self).ai,
            final(self).human_fleet == old(self).human_fleet,
            final(self).ai_fired@ == old(self).ai_fired@,
            final(self).ai_gun == old(self).ai_gun,
    {
        self.human_fired.push(shot);
        if defeated {
            self.over = true;
        }
    }

    /// The computer fires back: the gunner picks a cell, the human's board
    /// answers it against the computer's earlier shots, and a fully sunk
    /// human fleet ends the game.
    pub fn ai_turn(&mut self, rng: &mut StdRng) -> (a: AiShot)
        requires
            old(self).wf(),
            !old(self).over,
        ensures
            final(self).wf(),
            !shot_in(old(self).ai_fired@, a.shot),
            on_board(a.shot),
            a.hit == fleet_covers(old(self).human_fleet.placements@, a.shot.row, a.shot.col),
            a.sunk == select_kind(
                sunk_select(old(self).human_fleet.placements@, a.shot, old(self).ai_fired@, NUM_SHIPS as int),
            ),
            final(self).ai_fired@ == old(self).ai_fired@.push(a.shot),
            ({
                let j = last_untried(old(self).ai_gun.pending(), old(self).ai_fired@);
                &&& j >= 0 ==> a.shot == old(self).ai_gun.pending()[j]
                &&& final(self).ai_gun.pending() == (if j >= 0 {
                    old(self).ai_gun.pending().take(j)
                } else {
                    Seq::<Shot>::empty()
                }) + if a.hit {
                    new_neighbours(a.shot, final(self).ai_fired@, 4)
                } else {
                    seq![]
                }
            }),
            a.ai_won == fleet_sunk_by(old(self).human_fleet.placements@, final(self).ai_fired@),
            final(self).over == a.ai_won,
            final(self).ai == old(self).ai,
            final(self).human_fleet == old(self).human_fleet,
            final(self).human_fired@ == old(self).human_fired@,
    {
        proof {
            // Some ship cell is still untried, and it lies on the board.
            let fs = self.human_fleet.placements@;
            let (x, i) = choose|x: int, i: int|
                0 <= x < fs.len() && 0 <= i < fs[x].ship.spec_len() && !crate::fleet::history_has(
                    self.ai_fired@,
                    #[trigger] fs[x].spec_cell(i).0,
                    fs[x].spec_cell(i).1,
                );
            let cell = fs[x].spec_cell(i);
            assert(fs[x].spec_in_bounds());
            assert(cell.0 < BOARD_SIZE && cell.1 < BOARD_SIZE);
            assert(!shot_in(self.ai_gun.fired(), Shot { row: cell.0, col: cell.1 }));
        }
        let shot = self.ai_gun.next(rng);
        let hit = self.human_fleet.occupies(shot);
        let sunk = self.human_fleet.ship_sunk(shot, self.ai_fired.as_slice());
        self.ai_gun.record(shot, hit);
        self.ai_fired.push(shot);
        let ai_won = self.human_fleet.all_sunk(self.ai_fired.as_slice());
        self.over = ai_won;
        AiShot { shot, hit, sunk, ai_won }
    }
}

/// One side of a game between two players: this player's secret board, the
/// opponent's commitment once verified, and the authoritative record of the
/// shots this player fired at the opponent.
pub struct PvpSession {
    pub me: Player,
    pub opponent_commitment: Option<[u8; 32]>,
    /// Shots this player has fired at the opponent, in order: the expected
    /// history of every answer the opponent sends back.
    pub fired: Vec<Shot>,
}

impl PvpSession {
    pub fn new(me: Player) -> (s: Self)
        ensures
            s.me == me,
            s.opponent_commitment is None,
            s.fired@ == Seq::<Shot>::empty(),
    {
        PvpSession { me, opponent_commitment: None, fired: Vec::new() }
    }

    /// Accepts the opponent's commitment `proven`, read from a verified
    /// proof, when it equals the commitment `claimed` alongside the proof and
    /// differs from this player's own commitment. An opponent replaying our
    /// own commitment could never answer a shot, so it is refused at once.
    pub fn accept_opponent_commitment(&mut self, proven: [u8; 32], claimed: [u8; 32]) -> (r: Result<
        (),
        MoveError,
    >)
        ensures
            proven@ != claimed@ ==> r == Err::<(), MoveError>(MoveError::CommitmentMismatch),
            proven@ == claimed@ && proven@ == old(self).me.committed()@ ==> r == Err::<(), MoveError>(
                MoveError::EchoedCommitment,
            ),
            proven@ == claimed@ && proven@ != old(self).me.committed()@ ==> r == Ok::<(), MoveError>(()),
            r is Ok ==> final(self).opponent_commitment == Some(proven),
            r is Err ==> final(self).opponent_commitment == old(self).opponent_commitment,
            final(self).me == old(self).me,
            final(self).fired@ == old(self).fired@,
    {
        if !digest_eq(&proven, &claimed) {
            return Err(MoveError::CommitmentMismatch);
        }
        let own = self.me.commitment();
        if digest_eq(&proven, &own) {
            return Err(MoveError::EchoedCommitment);
        }
        self.opponent_commitment = Some(proven);
        Ok(())
    }

    /// Checks a shot this player is asked to answer: on the board, and not
    /// answered before (each cell may be targeted at most once per board).
    pub fn check_respond(&self, row: u8, col: u8) -> (r: Result<Shot, MoveError>)
        ensures
            !(row < BOARD_SIZE && col < BOARD_SIZE) ==> r == Err::<Shot, MoveError>(
                MoveError::BadCoordinates,
            ),
            row < BOARD_SIZE && col < BOARD_SIZE && shot_in(self.me.answered(), Shot { row, col })
                ==> r == Err::<Shot, MoveError>(MoveError::AlreadyAnswered),
            row < BOARD_SIZE && col < BOARD_SIZE && !shot_in(self.me.answered(), Shot { row, col })
                ==> r == Ok::<Shot, MoveError>(Shot { row, col }),
    {
        let shot = match check_coords(row, col) {
            Ok(s) => s,
            Err(_) => {
                return Err(MoveError::BadCoordinates);
            },
        };
        if self.me.already_answered(shot) {
            return Err(MoveError::AlreadyAnswered);
        }
        Ok(shot)
    }

    /// The commitment an answer from the opponent must be bound to; refused
    /// until the opponent's commitment has been verified.
    pub fn expected_commitment(&self) -> (r: Result<[u8; 32], MoveError>)
        ensures
            self.opponent_commitment matches Some(c) ==> r == Ok::<[u8; 32], MoveError>(c),
            self.opponent_commitment is None ==> r == Err::<[u8; 32], MoveError>(
                MoveError::OpponentNotCommitted,
            ),
    {
        match self.opponent_commitment {
            Some(c) => Ok(c),
            None => Err(MoveError::OpponentNotCommitted),
        }
    }

    /// Records a shot whose answer has been verified: only now does it join
    /// the authoritative history.
    pub fn record_fired(&mut self, shot: Shot)
        ensures
            final(self).fired@ == old(self).fired@.push(shot),
            final(self).me == old(self).me,
            final(self).opponent_commitment == old(self).opponent_commitment,
    {
        self.fired.push(shot);
    }
}

} // verus!
