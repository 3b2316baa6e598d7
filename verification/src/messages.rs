//! The inputs and journals of the two proofs of the protocol, the rules that
//! compute a journal from its input, and the checks that bind a received
//! shot journal to the current game and turn.

use vstd::prelude::*;
use crate::commitment::{host_commitment, sha256};
use crate::fleet::{fleet_covers, fleet_is_valid, fleet_sunk_by, select_kind, sunk_select, Fleet};
use crate::preimage::preimage;
use crate::ship::{ShipKind, Shot, NUM_SHIPS};

verus! {

/// Private input to the board-commitment proof.
#[derive(Clone)]
pub struct CommitInput {
    pub fleet: Fleet,
    pub salt: [u8; 32],
}

/// Public output of the board-commitment proof.
#[derive(Clone)]
pub struct CommitJournal {
    pub commitment: [u8; 32],
}

/// Input to the per-shot proof. `fleet` and `salt` are the private witness;
/// `commitment`, `shot` and `history` are public and bound into the journal.
#[derive(Clone)]
pub struct ShotInput {
    pub fleet: Fleet,
    pub salt: [u8; 32],
    pub commitment: [u8; 32],
    pub shot: Shot,
    pub history: Vec<Shot>,
}

/// Public output of the per-shot proof.
///
/// `history` is echoed back so that the verifier can check that the prover
/// computed against the real public shot history. `defeated` is true iff
/// `history` followed by `shot` covers every ship cell.
#[derive(Clone, PartialEq, Eq, Debug)]
pub struct ShotJournal {
    pub commitment: [u8; 32],
    pub shot: Shot,
    pub hit: bool,
    pub sunk: Option<ShipKind>,
    pub defeated: bool,
    pub history: Vec<Shot>,
}

/// A copy of a shot list.
pub fn copy_shots(shots: &[Shot]) -> (out: Vec<Shot>)
    ensures
        out@ == shots@,
{
    let mut out: Vec<Shot> = Vec::with_capacity(shots.len());
    let mut i: usize = 0;
    while i < shots.len()
        invariant
            i <= shots@.len(),
            out@ == shots@.take(i as int),
        decreases shots@.len() - i,
    {
        out.push(shots[i]);
        assert(out@ =~= shots@.take(i + 1));
        i = i + 1;
    }
    assert(shots@.take(shots@.len() as int) =~= shots@);
    out
}

/// Byte-wise equality of two digests.
pub fn digest_eq(a: &[u8; 32], b: &[u8; 32]) -> (eq: bool)
    ensures
        eq == (a@ == b@),
{
    let mut eq = true;
    let mut i: usize = 0;
    while i < 32
        invariant
            i <= 32,
            a@.len() == 32,
            b@.len() == 32,
            eq == forall|j: int| 0 <= j < i ==> a@[j] == b@[j],
        decreases 32 - i,
    {
        eq = eq && a[i] == b[i];
        i = i + 1;
    }
    if eq {
        assert(a@ =~= b@);
    }
    eq
}

/// Element-wise equality of two shot lists.
pub fn shots_eq(a: &[Shot], b: &[Shot]) -> (eq: bool)
    ensures
        eq == (a@ == b@),
{
    if a.len() != b.len() {
        return false;
    }
    let mut i: usize = 0;
    while i < a.len()
        invariant
            a@.len() == b@.len(),
            i <= a@.len(),
            a@.take(i as int) == b@.take(i as int),
        decreases a@.len() - i,
    {
        if a[i] != b[i] {
            return false;
        }
        assert(a@.take(i + 1) =~= b@.take(i + 1));
        i = i + 1;
    }
    assert(a@ =~= a@.take(a@.len() as int));
    assert(b@ =~= b@.take(b@.len() as int));
    true
}

impl CommitInput {
    /// The board-commitment rule: a fleet that breaks the rules has no
    /// journal at all; a legal fleet yields `SHA-256(preimage || salt)`.
    pub fn journal(&self) -> (j: Option<CommitJournal>)
        ensures
            j is Some <==> fleet_is_valid(self.fleet.placements@),
            j matches Some(j) ==> j.commitment@ == sha256(preimage(self.fleet.placements@, self.salt@)),
    {
        if !self.fleet.is_valid() {
            return None;
        }
        Some(CommitJournal { commitment: host_commitment(&self.fleet, &self.salt) })
    }
}

impl ShotInput {
    /// The shot-response rule. The board and salt must hash to the commitment
    /// fixed at setup, otherwise there is no journal; the journal then states,
    /// against that board and the given history, whether the shot hits,
    /// which ship it sinks, and whether the fleet is now fully sunk.
    pub fn journal(&self) -> (j: Option<ShotJournal>)
        ensures
            j is Some <==> sha256(preimage(self.fleet.placements@, self.salt@)) == self.commitment@,
            j matches Some(j) ==> {
                &&& j.commitment == self.commitment
                &&& j.shot == self.shot
                &&& j.hit == fleet_covers(self.fleet.placements@, self.shot.row, self.shot.col)
                &&& j.sunk == select_kind(
                    sunk_select(self.fleet.placements@, self.shot, self.history@, NUM_SHIPS as int),
                )
                &&& j.defeated == fleet_sunk_by(self.fleet.placements@, self.history@.push(self.shot))
                &&& j.history@ == self.history@
            },
    {
        let recomputed = host_commitment(&self.fleet, &self.salt);
        if !digest_eq(&recomputed, &self.commitment) {
            return None;
        }
        let hit = self.fleet.occupies(self.shot);
        let sunk = self.fleet.ship_sunk(self.shot, self.history.as_slice());
        let mut full_history = copy_shots(self.history.as_slice());
        full_history.push(self.shot);
        let defeated = self.fleet.all_sunk(full_history.as_slice());
        Some(
            ShotJournal {
                commitment: self.commitment,
                shot: self.shot,
                hit,
                sunk,
                defeated,
                history: copy_shots(self.history.as_slice()),
            },
        )
    }
}

/// Law: a board that could be committed can answer every shot. When the
/// commitment of a shot input is the one the commitment rule computes from
/// the same board and salt, the shot rule yields a journal, whatever the
/// shot and history.
pub proof fn lemma_committed_board_answers(c: CommitInput, commitment: Seq<u8>, s: ShotInput)
    requires
        fleet_is_valid(c.fleet.placements@),
        commitment == sha256(preimage(c.fleet.placements@, c.salt@)),
        s.fleet == c.fleet,
        s.salt == c.salt,
        s.commitment@ == commitment,
    ensures
        sha256(preimage(s.fleet.placements@, s.salt@)) == s.commitment@,
{
}

/// Why a shot journal was not accepted for this game and turn.
#[derive(Clone, Copy, PartialEq, Eq, Debug, Structural)]
pub enum BindingError {
    /// The proof references a different board than the one committed at setup.
    WrongCommitment,
    /// The proof is for a different shot than the one fired this turn.
    WrongShot,
    /// The proof was computed against a different shot history than the one
    /// actually fired.
    WrongHistory,
}

/// Binds a (cryptographically verified) shot journal to this game and turn:
/// the commitment must be the one fixed at setup, the shot the one fired this
/// turn, and the history, in order, the shots fired at this opponent so far.
/// The first mismatch, in that order, is reported.
pub fn check_shot_journal(
    journal: ShotJournal,
    expected_commitment: [u8; 32],
    expected_shot: Shot,
    expected_history: &[Shot],
) -> (r: Result<ShotJournal, BindingError>)
    ensures
        journal.commitment@ != expected_commitment@ ==> r == Err::<ShotJournal, BindingError>(
            BindingError::WrongCommitment,
        ),
        journal.commitment@ == expected_commitment@ && journal.shot != expected_shot ==> r == Err::<
            ShotJournal,
            BindingError,
        >(BindingError::WrongShot),
        journal.commitment@ == expected_commitment@ && journal.shot == expected_shot
            && journal.history@ != expected_history@ ==> r == Err::<ShotJournal, BindingError>(
            BindingError::WrongHistory,
        ),
        journal.commitment@ == expected_commitment@ && journal.shot == expected_shot
            && journal.history@ == expected_history@ ==> r == Ok::<ShotJournal, BindingError>(journal),
{
    if !digest_eq(&journal.commitment, &expected_commitment) {
        return Err(BindingError::WrongCommitment);
    }
    if journal.shot != expected_shot {
        return Err(BindingError::WrongShot);
    }
    if !shots_eq(journal.history.as_slice(), expected_history) {
        return Err(BindingError::WrongHistory);
    }
    Ok(journal)
}

} // verus!
