//! Per-player game state: the secret board with its public commitment and
//! the shots answered so far, and the computer's hunt/target gunner.

use vstd::prelude::*;
use rand::rngs::StdRng;
use crate::commitment::{host_commitment, sha256};
use crate::fleet::{fleet_sunk_by, Fleet};
use crate::messages::{copy_shots, CommitInput, ShotInput};
use crate::preimage::preimage;
use crate::random::random_below;
use crate::ship::{Shot, BOARD_SIZE};

verus! {

/// `shot` occurs in `shots`.
pub open spec fn shot_in(shots: Seq<Shot>, shot: Shot) -> bool {
    exists|k: int| 0 <= k < shots.len() && #[trigger] shots[k] == shot
}

/// Fixed scan for `shot` in `shots`.
fn contains_shot(shots: &Vec<Shot>, shot: Shot) -> (found: bool)
    ensures
        found == shot_in(shots@, shot),
{
    let mut k: usize = 0;
    while k < shots.len()
        invariant
            k <= shots@.len(),
            forall|j: int| 0 <= j < k ==> shots@[j] != shot,
        decreases shots@.len() - k,
    {
        if shots[k] == shot {
            return true;
        }
        k = k + 1;
    }
    false
}

/// One player: holds the secret board and salt, the public commitment, and
/// the running history of shots fired at this player.
pub struct Player {
    fleet: Fleet,
    salt: [u8; 32],
    commitment: [u8; 32],
    incoming: Vec<Shot>,
}

impl Player {
    /// The player's secret board.
    pub closed spec fn board(self) -> Fleet {
        self.fleet
    }

    /// The player's secret salt.
    pub closed spec fn secret_salt(self) -> Seq<u8> {
        self.salt@
    }

    /// The player's public commitment.
    pub closed spec fn committed(self) -> [u8; 32] {
        self.commitment
    }

    /// The shots answered so far, in order.
    pub closed spec fn answered(self) -> Seq<Shot> {
        self.incoming@
    }

    /// The public commitment is the digest of the player's own board and salt.
    pub open spec fn wf(self) -> bool {
        self.committed()@ == sha256(preimage(self.board().placements@, self.secret_salt()))
    }

    pub fn new(fleet: Fleet, salt: [u8; 32]) -> (p: Self)
        ensures
            p.wf(),
            p.board() == fleet,
            p.secret_salt() == salt@,
            p.committed()@ == sha256(preimage(fleet.placements@, salt@)),
            p.answered() == Seq::<Shot>::empty(),
    {
        let commitment = host_commitment(&fleet, &salt);
        Player { fleet, salt, commitment, incoming: Vec::new() }
    }

    /// The private input of this player's board-commitment proof.
    pub fn commit_input(&self) -> (input: CommitInput)
        ensures
            input.fleet == self.board(),
            input.salt@ == self.secret_salt(),
    {
        CommitInput { fleet: self.fleet.clone_fleet(), salt: self.salt }
    }

    /// The input of the proof that answers `shot`: this player's board,
    /// salt and commitment, and the shots answered before it.
    pub fn shot_input(&self, shot: Shot) -> (input: ShotInput)
        ensures
            input.fleet == self.board(),
            input.salt@ == self.secret_salt(),
            input.commitment == self.committed(),
            input.shot == shot,
            input.history@ == self.answered(),
    {
        ShotInput {
            fleet: self.fleet.clone_fleet(),
            salt: self.salt,
            commitment: self.commitment,
            shot,
            history: copy_shots(self.incoming.as_slice()),
        }
    }

    /// Records that `shot` has been answered.
    pub fn record_answer(&mut self, shot: Shot)
        ensures
            final(self).board() == old(self).board(),
            final(self).secret_salt() == old(self).secret_salt(),
            final(self).committed() == old(self).committed(),
            final(self).answered() == old(self).answered().push(shot),
    {
        self.incoming.push(shot);
    }

    /// True if this player has already answered a shot at this cell. The
    /// protocol requires distinct shots, which keeps the two sides' history
    /// sequences in lockstep.
    pub fn already_answered(&self, shot: Shot) -> (b: bool)
        ensures
            b == shot_in(self.answered(), shot),
    {
        contains_shot(&self.incoming, shot)
    }

    pub fn fleet(&self) -> (f: &Fleet)
        ensures
            *f == self.board(),
    {
        &self.fleet
    }

    /// The player's public commitment.
    pub fn commitment(&self) -> (c: [u8; 32])
        ensures
            c == self.committed(),
    {
        self.commitment
    }

    pub fn salt(&self) -> (s: [u8; 32])
        ensures
            s@ == self.secret_salt(),
    {
        self.salt
    }

    /// True once every cell of this player's fleet has been hit by the shots
    /// fired at them so far.
    pub fn is_defeated(&self) -> (b: bool)
        ensures
            b == fleet_sunk_by(self.board().placements@, self.answered()),
    {
        self.fleet.all_sunk(self.incoming.as_slice())
    }
}

impl Fleet {
    /// A copy of the fleet.
    pub fn clone_fleet(&self) -> (f: Fleet)
        ensures
            f == *self,
    {
        Fleet { placements: self.placements }
    }
}

/// The cell `(r, c)` lies on the board.
pub open spec fn on_board(s: Shot) -> bool {
    s.row < BOARD_SIZE && s.col < BOARD_SIZE
}

/// A byte read as a two's-complement signed value.
pub open spec fn as_signed(b: u8) -> int {
    if b < 128 {
        b as int
    } else {
        b - 256
    }
}

/// The `k`-th neighbour offset: up, down, left, right.
pub open spec fn delta(k: int) -> (int, int) {
    if k == 0 {
        (-1, 0)
    } else if k == 1 {
        (1, 0)
    } else if k == 2 {
        (0, -1)
    } else {
        (0, 1)
    }
}

/// The neighbours, among the first `n` offsets, of a hit at `shot` that lie
/// on the board and are not in `tried`, in offset order. Coordinates are
/// read as signed bytes before the offset is added.
pub open spec fn new_neighbours(shot: Shot, tried: Seq<Shot>, n: int) -> Seq<Shot>
    decreases n,
{
    if n <= 0 {
        seq![]
    } else {
        let r = as_signed(shot.row) + delta(n - 1).0;
        let c = as_signed(shot.col) + delta(n - 1).1;
        let s = Shot { row: r as u8, col: c as u8 };
        new_neighbours(shot, tried, n - 1) + if 0 <= r < BOARD_SIZE && 0 <= c < BOARD_SIZE
            && !shot_in(tried, s) {
            seq![s]
        } else {
            seq![]
        }
    }
}

proof fn lemma_new_neighbours_on_board(shot: Shot, tried: Seq<Shot>, n: int)
    ensures
        forall|k: int| 0 <= k < new_neighbours(shot, tried, n).len() ==> on_board(#[trigger] new_neighbours(shot, tried, n)[k]),
    decreases n,
{
    if n > 0 {
        lemma_new_neighbours_on_board(shot, tried, n - 1);
        let prev = new_neighbours(shot, tried, n - 1);
        let cur = new_neighbours(shot, tried, n);
        assert forall|k: int| 0 <= k < cur.len() implies on_board(#[trigger] cur[k]) by {
            if k < prev.len() {
                assert(cur[k] == prev[k]);
            }
        }
    }
}

/// The largest index of `queue` whose shot is not in `tried`, or -1.
pub open spec fn last_untried(queue: Seq<Shot>, tried: Seq<Shot>) -> int
    decreases queue.len(),
{
    if queue.len() == 0 {
        -1
    } else if !shot_in(tried, queue.last()) {
        queue.len() - 1
    } else {
        last_untried(queue.drop_last(), tried)
    }
}

proof fn lemma_last_untried(queue: Seq<Shot>, tried: Seq<Shot>)
    ensures
        -1 <= last_untried(queue, tried) < queue.len(),
        last_untried(queue, tried) >= 0 ==> !shot_in(tried, queue[last_untried(queue, tried)]),
        forall|j: int|
            last_untried(queue, tried) < j < queue.len() ==> shot_in(tried, #[trigger] queue[j]),
    decreases queue.len(),
{
    if queue.len() > 0 && shot_in(tried, queue.last()) {
        lemma_last_untried(queue.drop_last(), tried);
        assert forall|j: int|
            last_untried(queue, tried) < j < queue.len() implies shot_in(tried, #[trigger] queue[j]) by {
            if j < queue.len() - 1 {
                assert(queue[j] == queue.drop_last()[j]);
            }
        }
    }
}

/// The `i`-th board cell in row-major order.
pub open spec fn board_cell(i: int) -> Shot {
    Shot { row: (i / 10) as u8, col: (i % 10) as u8 }
}

/// The cells among the first `n` board cells, in row-major order, that are
/// not in `tried`.
pub open spec fn untried_prefix(tried: Seq<Shot>, n: int) -> Seq<Shot>
    decreases n,
{
    if n <= 0 {
        seq![]
    } else {
        untried_prefix(tried, n - 1) + if !shot_in(tried, board_cell(n - 1)) {
            seq![board_cell(n - 1)]
        } else {
            seq![]
        }
    }
}

/// The board cells not in `tried`, in row-major order.
pub open spec fn untried_cells(tried: Seq<Shot>) -> Seq<Shot> {
    untried_prefix(tried, 100)
}

proof fn lemma_board_cell_index(r: u8, c: u8)
    requires
        r < BOARD_SIZE,
        c < BOARD_SIZE,
    ensures
        board_cell(10 * r + c) == (Shot { row: r, col: c }),
        0 <= 10 * r + c < 100,
{
    assert((10 * r + c) / 10 == r as int && (10 * r + c) % 10 == c as int) by (nonlinear_arith)
        requires
            r < 10,
            c < 10,
    ;
}

proof fn lemma_untried_prefix(tried: Seq<Shot>, n: int)
    requires
        0 <= n <= 100,
    ensures
        untried_prefix(tried, n).len() <= n,
        forall|k: int|
            0 <= k < untried_prefix(tried, n).len() ==> on_board(#[trigger] untried_prefix(tried, n)[k])
                && !shot_in(tried, untried_prefix(tried, n)[k]),
        forall|i: int|
            0 <= i < n && !shot_in(tried, #[trigger] board_cell(i)) ==> shot_in(
                untried_prefix(tried, n),
                board_cell(i),
            ),
    decreases n,
{
    if n > 0 {
        lemma_untried_prefix(tried, n - 1);
        let prev = untried_prefix(tried, n - 1);
        let cur = untried_prefix(tried, n);
        assert((n - 1) / 10 < 10 && (n - 1) % 10 < 10) by (nonlinear_arith)
            requires
                0 <= n - 1 < 100,
        ;
        assert forall|k: int| 0 <= k < cur.len() implies on_board(#[trigger] cur[k]) && !shot_in(tried, cur[k]) by {
            if k < prev.len() {
                assert(cur[k] == prev[k]);
            }
        }
        assert forall|i: int| 0 <= i < n && !shot_in(tried, #[trigger] board_cell(i)) implies shot_in(cur, board_cell(i)) by {
            if i < n - 1 {
                let k = choose|k: int| 0 <= k < prev.len() && #[trigger] prev[k] == board_cell(i);
                assert(cur[k] == prev[k]);
            } else {
                assert(cur[prev.len() as int] == board_cell(i));
            }
        }
    }
}

/// The board cells not yet fired at, in row-major order.
fn untried_list(tried: &Vec<Shot>) -> (v: Vec<Shot>)
    ensures
        v@ == untried_cells(tried@),
        v@.len() <= 100,
{
    let mut v: Vec<Shot> = Vec::new();
    let mut i: u8 = 0;
    while i < 100
        invariant
            i <= 100,
            v@ == untried_prefix(tried@, i as int),
        decreases 100 - i,
    {
        let s = Shot::new(i / 10, i % 10);
        assert(s == board_cell(i as int));
        if !contains_shot(tried, s) {
            v.push(s);
        }
        assert(v@ =~= untried_prefix(tried@, i + 1));
        i = i + 1;
    }
    proof {
        lemma_untried_prefix(tried@, 100);
    }
    v
}

/// The `k`-th board cell, in row-major order, among those not in `tried`:
/// the hunting shot for a drawn index `k`.
pub fn hunt_pick(tried: &Vec<Shot>, k: u8) -> (s: Shot)
    requires
        k < untried_cells(tried@).len(),
    ensures
        s == untried_cells(tried@)[k as int],
{
    let v = untried_list(tried);
    v[k as usize]
}

/// Simple but effective "hunt / target" gunner: fire randomly until a hit,
/// then sweep the orthogonal neighbours of any hit before resuming the hunt.
pub struct Gunner {
    tried: Vec<Shot>,
    queue: Vec<Shot>,
}

impl Gunner {
    /// The shots fired so far, in order.
    pub closed spec fn fired(self) -> Seq<Shot> {
        self.tried@
    }

    /// The cells waiting to be swept, the last one first.
    pub closed spec fn pending(self) -> Seq<Shot> {
        self.queue@
    }

    /// Every cell waiting to be swept lies on the board.
    pub closed spec fn wf(self) -> bool {
        forall|k: int| 0 <= k < self.queue@.len() ==> on_board(#[trigger] self.queue@[k])
    }

    pub fn new() -> (g: Self)
        ensures
            g.wf(),
            g.fired() == Seq::<Shot>::empty(),
            g.pending() == Seq::<Shot>::empty(),
    {
        Gunner { tried: Vec::new(), queue: Vec::new() }
    }

    /// The next shot: the most recently queued cell that has not been fired
    /// at, if any, without drawing from `rng`; otherwise a random board cell
    /// that has not been fired at, drawn as row and column until an untried
    /// cell comes up. Some board cell must still be untried.
    pub fn next(&mut self, rng: &mut StdRng) -> (s: Shot)
        requires
            old(self).wf(),
            exists|r: u8, c: u8|
                r < BOARD_SIZE && c < BOARD_SIZE && !shot_in(old(self).fired(), Shot { row: r, col: c }),
        ensures
            final(self).wf(),
            on_board(s),
            final(self).fired() == old(self).fired(),
            !shot_in(old(self).fired(), s),
            ({
                let j = last_untried(old(self).pending(), old(self).fired());
                if j >= 0 {
                    &&& s == old(self).pending()[j]
                    &&& final(self).pending() == old(self).pending().take(j)
                    &&& *final(rng) == *old(rng)
                } else {
                    &&& on_board(s)
                    &&& final(self).pending() == Seq::<Shot>::empty()
                }
            }),
    {
        proof {
            lemma_last_untried(self.queue@, self.tried@);
        }
        let ghost q0 = self.queue@;
        let ghost j = last_untried(q0, self.tried@);
        while self.queue.len() > 0
            invariant
                self.tried@ == old(self).tried@,
                *rng == *old(rng),
                q0 == old(self).queue@,
                j == last_untried(q0, self.tried@),
                j < self.queue@.len() <= q0.len(),
                self.queue@ == q0.take(self.queue@.len() as int),
                -1 <= j < q0.len(),
                j >= 0 ==> !shot_in(self.tried@, q0[j]),
                forall|k: int| j < k < q0.len() ==> shot_in(self.tried@, #[trigger] q0[k]),
                forall|k: int| 0 <= k < q0.len() ==> on_board(#[trigger] q0[k]),
            decreases self.queue@.len(),
        {
            let s = self.queue.pop().unwrap();
            assert(s == q0[self.queue@.len() as int]);
            assert(self.queue@ =~= q0.take(self.queue@.len() as int));
            if !contains_shot(&self.tried, s) {
                return s;
            }
        }
        // Hunt: draw cells until one comes up that has not been fired at.
        let mut draws: u32 = 0;
        while draws < u32::MAX
            invariant
                self.tried@ == old(self).tried@,
                self.queue@ == Seq::<Shot>::empty(),
                j == -1,
                j == last_untried(old(self).queue@, old(self).tried@),
            decreases u32::MAX - draws,
        {
            let row = random_below(rng, BOARD_SIZE);
            let col = random_below(rng, BOARD_SIZE);
            let s = Shot::new(row, col);
            if !contains_shot(&self.tried, s) {
                return s;
            }
            draws = draws + 1;
        }
        // After `u32::MAX` rejected draws, pick uniformly among the untried
        // cells instead.
        proof {
            let (r0, c0) = choose|r: u8, c: u8| r < BOARD_SIZE && c < BOARD_SIZE && !shot_in(old(self).tried@, Shot { row: r, col: c });
            lemma_board_cell_index(r0, c0);
            lemma_untried_prefix(self.tried@, 100);
            assert(shot_in(untried_cells(self.tried@), Shot { row: r0, col: c0 }));
        }
        let n = untried_list(&self.tried).len();
        let k = random_below(rng, n as u8);
        let s = hunt_pick(&self.tried, k);
        proof {
            lemma_untried_prefix(self.tried@, 100);
            assert(untried_cells(self.tried@)[k as int] == s);
        }
        s
    }

    /// Records a fired shot; after a hit, queues the on-board orthogonal
    /// neighbours that have not been fired at.
    pub fn record(&mut self, shot: Shot, hit: bool)
        requires
            old(self).wf(),
        ensures
            final(self).wf(),
            final(self).fired() == old(self).fired().push(shot),
            final(self).pending() == old(self).pending() + if hit {
                new_neighbours(shot, old(self).fired().push(shot), 4)
            } else {
                seq![]
            },
    {
        self.tried.push(shot);
        if hit {
            let deltas: [(i8, i8); 4] = [(-1, 0), (1, 0), (0, -1), (0, 1)];
            let ghost q0 = self.queue@;
            let mut k: usize = 0;
            while k < 4
                invariant
                    k <= 4,
                    deltas@ == seq![(-1i8, 0i8), (1i8, 0i8), (0i8, -1i8), (0i8, 1i8)],
                    self.tried@ == old(self).tried@.push(shot),
                    self.queue@ == q0 + new_neighbours(shot, self.tried@, k as int),
                decreases 4 - k,
            {
                let (dr, dc) = deltas[k];
                let row = shot.row;
                let col = shot.col;
                let sr: i8 = row as i8;
                let sc: i8 = col as i8;
                proof {
                    assert(sr as i16 == if row < 128 { row as i16 } else { (row as i16 - 256) as i16 }) by (bit_vector)
                        requires sr == row as i8;
                    assert(sc as i16 == if col < 128 { col as i16 } else { (col as i16 - 256) as i16 }) by (bit_vector)
                        requires sc == col as i8;
                }
                let nr: i16 = sr as i16 + dr as i16;
                let nc: i16 = sc as i16 + dc as i16;
                if 0 <= nr && nr < BOARD_SIZE as i16 && 0 <= nc && nc < BOARD_SIZE as i16 {
                    let s = Shot::new(nr as u8, nc as u8);
                    if !contains_shot(&self.tried, s) {
                        self.queue.push(s);
                    }
                }
                assert(self.queue@ =~= q0 + new_neighbours(shot, self.tried@, k + 1));
                k = k + 1;
            }
            proof {
                lemma_new_neighbours_on_board(shot, self.tried@, 4);
                assert forall|k: int| 0 <= k < self.queue@.len() implies on_board(#[trigger] self.queue@[k]) by {
                    if k >= q0.len() {
                        assert(self.queue@[k] == new_neighbours(shot, self.tried@, 4)[k - q0.len()]);
                    }
                }
            }
        }
    }
}

impl Default for Gunner {
    fn default() -> (g: Self)
        ensures
            g.wf(),
            g.fired() == Seq::<Shot>::empty(),
            g.pending() == Seq::<Shot>::empty(),
    {
        Gunner::new()
    }
}

} // verus!
