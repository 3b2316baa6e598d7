//! A complete fleet and the rules evaluated against it: validity, hits,
//! sunk ships and defeat.
//!
//! Everything that touches the private fleet is written with fixed-shape
//! control flow: loops run for a fixed number of iterations and results are
//! accumulated with non-short-circuiting boolean operators instead of early
//! exits, so the work done does not depend on where the ships are.

use vstd::prelude::*;
use crate::ship::{kind_of_id, Placement, ShipKind, Shot, NUM_SHIPS};

verus! {

/// Some shot of `history` was fired at `(r, c)`.
pub open spec fn history_has(history: Seq<Shot>, r: u8, c: u8) -> bool {
    exists|k: int| 0 <= k < history.len() && #[trigger] history[k] == (Shot { row: r, col: c })
}

/// Conjunction of two booleans that evaluates both operands, computed on
/// their bits so that no branch is taken.
#[inline]
fn both(a: bool, b: bool) -> (r: bool)
    ensures
        r == (a && b),
{
    let bits: u8 = (a as u8) & (b as u8);
    proof {
        assert((a as u8) & (b as u8) == if a && b { 1u8 } else { 0u8 }) by (bit_vector);
    }
    bits == 1
}

/// Disjunction of two booleans that evaluates both operands, computed on
/// their bits so that no branch is taken.
#[inline]
fn either(a: bool, b: bool) -> (r: bool)
    ensures
        r == (a || b),
{
    let bits: u8 = (a as u8) | (b as u8);
    proof {
        assert((a as u8) | (b as u8) == if a || b { 1u8 } else { 0u8 }) by (bit_vector);
    }
    bits == 1
}

/// `v` when `b` holds and 0 otherwise, computed by multiplication so that no
/// branch is taken.
#[inline]
fn select_if(b: bool, v: u8) -> (r: u8)
    ensures
        r == if b { v } else { 0 },
{
    let r: u8 = (b as u8).wrapping_mul(v);
    proof {
        assert((b as u8) == if b { 1u8 } else { 0u8 }) by (bit_vector);
        assert(b ==> (1u8 as int * v as int) % 256 == v as int) by (nonlinear_arith);
    }
    r
}

/// Fixed-shape membership test: scans the whole history with no early exit.
fn history_covers(history: &[Shot], row: u8, col: u8) -> (found: bool)
    ensures
        found == history_has(history@, row, col),
{
    let mut found = false;
    let mut k: usize = 0;
    while k < history.len()
        invariant
            k <= history@.len(),
            found == exists|j: int| 0 <= j < k && #[trigger] history@[j] == (Shot { row: row, col: col }),
        decreases history@.len() - k,
    {
        let h = history[k];
        found = either(found, both(h.row == row, h.col == col));
        k = k + 1;
    }
    found
}

/// A complete fleet: one placement per ship slot.
#[derive(Clone, PartialEq, Eq, Debug)]
pub struct Fleet {
    pub placements: [Placement; NUM_SHIPS],
}

/// Some ship of `fs` covers `(r, c)`.
pub open spec fn fleet_covers(fs: Seq<Placement>, r: u8, c: u8) -> bool {
    exists|a: int| 0 <= a < fs.len() && #[trigger] fs[a].covers(r, c)
}

/// Every cell of every ship of `fs` was fired at in `history`.
pub open spec fn fleet_sunk_by(fs: Seq<Placement>, history: Seq<Shot>) -> bool {
    forall|a: int, i: int|
        0 <= a < fs.len() && 0 <= i < fs[a].ship.spec_len() ==> history_has(
            history,
            #[trigger] fs[a].spec_cell(i).0,
            fs[a].spec_cell(i).1,
        )
}

/// Number of placements among the first `n` of `fs` that carry ship `k`.
pub open spec fn kind_count(fs: Seq<Placement>, k: ShipKind, n: int) -> nat
    decreases n,
{
    if n <= 0 {
        0
    } else {
        kind_count(fs, k, n - 1) + if fs[n - 1].ship == k { 1nat } else { 0nat }
    }
}

/// The fleet has exactly one ship of each kind.
pub open spec fn one_of_each(fs: Seq<Placement>) -> bool {
    forall|k: ShipKind| #[trigger] kind_count(fs, k, fs.len() as int) == 1
}

/// Every ship of the fleet lies fully inside the board.
pub open spec fn all_in_bounds(fs: Seq<Placement>) -> bool {
    forall|a: int| 0 <= a < fs.len() ==> #[trigger] fs[a].spec_in_bounds()
}

/// Some cell of ship `p` coincides with some cell of ship `q`.
pub open spec fn ships_overlap(p: Placement, q: Placement) -> bool {
    exists|i: int, j: int|
        0 <= i < p.ship.spec_len() && 0 <= j < q.ship.spec_len() && #[trigger] p.spec_cell(i)
            == #[trigger] q.spec_cell(j)
}

/// No two distinct ships of the fleet share a cell.
pub open spec fn no_overlap(fs: Seq<Placement>) -> bool {
    forall|a: int, b: int| 0 <= a < b < fs.len() ==> !ships_overlap(#[trigger] fs[a], #[trigger] fs[b])
}

/// The rules of standard Battleship: exactly one of each kind, every ship
/// fully on the board, and no two ships overlapping. Ships may touch.
pub open spec fn fleet_is_valid(fs: Seq<Placement>) -> bool {
    &&& one_of_each(fs)
    &&& all_in_bounds(fs)
    &&& no_overlap(fs)
}

/// Sum of `id + 1` over the ships among the first `n` of `fs` that cover
/// `(r, c)`.
pub open spec fn hit_select(fs: Seq<Placement>, r: u8, c: u8, n: int) -> int
    decreases n,
{
    if n <= 0 {
        0
    } else {
        hit_select(fs, r, c, n - 1) + if fs[n - 1].covers(r, c) {
            fs[n - 1].ship.spec_id() + 1
        } else {
            0
        }
    }
}

/// Every cell of `p` is either the cell of `shot` or was fired at in `history`.
pub open spec fn fully_hit(p: Placement, shot: Shot, history: Seq<Shot>) -> bool {
    forall|i: int|
        0 <= i < p.ship.spec_len() ==> (#[trigger] p.spec_cell(i) == (shot.row, shot.col)
            || history_has(history, p.spec_cell(i).0, p.spec_cell(i).1))
}

/// Sum of `id + 1` over the ships among the first `n` of `fs` that `shot`
/// hits and that are then hit on every cell.
pub open spec fn sunk_select(fs: Seq<Placement>, shot: Shot, history: Seq<Shot>, n: int) -> int
    decreases n,
{
    if n <= 0 {
        0
    } else {
        sunk_select(fs, shot, history, n - 1) + if fs[n - 1].covers(shot.row, shot.col)
            && fully_hit(fs[n - 1], shot, history) {
            fs[n - 1].ship.spec_id() + 1
        } else {
            0
        }
    }
}

/// The ship kind that a selector sum stands for: the sum minus one read as
/// an id, with a sum of 0 (no ship) giving `None`.
pub open spec fn select_kind(sel: int) -> Option<ShipKind> {
    if sel == 0 {
        None
    } else {
        kind_of_id((sel - 1) as u8)
    }
}

/// The slot of a ship of `fs` that covers `(r, c)`, when there is one.
pub open spec fn covering_ship(fs: Seq<Placement>, r: u8, c: u8) -> int {
    choose|a: int| 0 <= a < fs.len() && #[trigger] fs[a].covers(r, c)
}

impl Fleet {
    /// Validate the fleet against the rules of standard Battleship:
    ///   1. exactly one of each ShipKind,
    ///   2. every ship fully on-board,
    ///   3. no two ships overlap.
    ///
    /// (Standard rules allow ships to touch, so adjacency is not rejected.)
    pub fn is_valid(&self) -> (ok: bool)
        ensures
            ok == fleet_is_valid(self.placements@),
    {
        let ghost fs = self.placements@;
        // 1. exact fleet composition: each kind appears exactly once.
        let kinds = ShipKind::all();
        let mut composition_ok = true;
        let mut m: usize = 0;
        while m < NUM_SHIPS
            invariant
                fs == self.placements@,
                fs.len() == NUM_SHIPS,
                m <= NUM_SHIPS,
                forall|x: int| 0 <= x < NUM_SHIPS ==> (#[trigger] kinds@[x]).spec_id() == x,
                composition_ok == forall|x: int|
                    0 <= x < m ==> kind_count(fs, #[trigger] kinds@[x], NUM_SHIPS as int) == 1,
            decreases NUM_SHIPS - m,
        {
            let kind = kinds[m];
            let mut count: u8 = 0;
            let mut a: usize = 0;
            while a < NUM_SHIPS
                invariant
                    fs == self.placements@,
                    fs.len() == NUM_SHIPS,
                    a <= NUM_SHIPS,
                    count == kind_count(fs, kind, a as int),
                    count <= a,
                decreases NUM_SHIPS - a,
            {
                let p = self.placements[a];
                assert(fs[a as int] == p);
                count = count + select_if(p.ship.id() == kind.id(), 1);
                a = a + 1;
            }
            composition_ok = both(composition_ok, count == 1);
            m = m + 1;
        }
        if !composition_ok {
            proof {
                let x = choose|x: int| 0 <= x < NUM_SHIPS && kind_count(fs, #[trigger] kinds@[x], NUM_SHIPS as int) != 1;
                assert(kind_count(fs, kinds@[x], fs.len() as int) != 1);
            }
            return false;
        }
        assert(one_of_each(fs)) by {
            assert forall|k: ShipKind| #[trigger] kind_count(fs, k, fs.len() as int) == 1 by {
                assert(kinds@[k.spec_id() as int] == k);
            }
        }

        // 2. bounds (accumulated, no early exit)
        let mut in_bounds = true;
        let mut a: usize = 0;
        while a < NUM_SHIPS
            invariant
                fs == self.placements@,
                fs.len() == NUM_SHIPS,
                a <= NUM_SHIPS,
                in_bounds == forall|b: int| 0 <= b < a ==> #[trigger] fs[b].spec_in_bounds(),
            decreases NUM_SHIPS - a,
        {
            let p = self.placements[a];
            assert(fs[a as int] == p);
            in_bounds = both(in_bounds, p.in_bounds());
            a = a + 1;
        }

        // 3. no overlap: full pairwise cell comparison.
        let mut overlap = false;
        let mut a: usize = 0;
        while a < NUM_SHIPS
            invariant
                fs == self.placements@,
                fs.len() == NUM_SHIPS,
                a <= NUM_SHIPS,
                overlap == exists|x: int, y: int|
                    0 <= x < a && x < y < NUM_SHIPS && ships_overlap(#[trigger] fs[x], #[trigger] fs[y]),
            decreases NUM_SHIPS - a,
        {
            let ghost before_a = overlap;
            let mut b: usize = a + 1;
            while b < NUM_SHIPS
                invariant
                    fs == self.placements@,
                    fs.len() == NUM_SHIPS,
                    a < NUM_SHIPS,
                    a + 1 <= b <= NUM_SHIPS,
                    overlap == (before_a || exists|y: int|
                        a < y < b && ships_overlap(fs[a as int], #[trigger] fs[y])),
                decreases NUM_SHIPS - b,
            {
                let pa = self.placements[a];
                let pb = self.placements[b];
                assert(fs[a as int] == pa);
                assert(fs[b as int] == pb);
                let ghost before_b = overlap;
                let na = pa.ship.len();
                let nb = pb.ship.len();
                let mut i: u8 = 0;
                while i < na
                    invariant
                        na == pa.ship.spec_len(),
                        nb == pb.ship.spec_len(),
                        i <= na,
                        overlap == (before_b || exists|x: int, y: int|
                            0 <= x < i && 0 <= y < nb && #[trigger] pa.spec_cell(x)
                                == #[trigger] pb.spec_cell(y)),
                    decreases na - i,
                {
                    let ghost before_i = overlap;
                    let (ra, ca) = pa.cell(i);
                    let mut j: u8 = 0;
                    while j < nb
                        invariant
                            na == pa.ship.spec_len(),
                            nb == pb.ship.spec_len(),
                            i < na,
                            j <= nb,
                            (ra, ca) == pa.spec_cell(i as int),
                            overlap == (before_i || exists|y: int|
                                0 <= y < j && pa.spec_cell(i as int) == #[trigger] pb.spec_cell(y)),
                        decreases nb - j,
                    {
                        let (rb, cb) = pb.cell(j);
                        overlap = either(overlap, both(ra == rb, ca == cb));
                        j = j + 1;
                    }
                    proof {
                        if overlap && !before_i {
                            let y = choose|y: int| 0 <= y < nb && pa.spec_cell(i as int) == #[trigger] pb.spec_cell(y);
                            assert(pa.spec_cell(i as int) == pb.spec_cell(y));
                        }
                        if !overlap {
                            assert forall|x: int, y: int|
                                0 <= x < i + 1 && 0 <= y < nb implies #[trigger] pa.spec_cell(x)
                                    != #[trigger] pb.spec_cell(y) by {
                                if x == i as int {
                                    assert(pa.spec_cell(i as int) != pb.spec_cell(y));
                                }
                            }
                        }
                    }
                    i = i + 1;
                }
                proof {
                    if overlap && !before_b {
                        assert(ships_overlap(fs[a as int], fs[b as int]));
                    }
                    if !overlap {
                        assert forall|y: int| a < y < b + 1 implies !ships_overlap(fs[a as int], #[trigger] fs[y]) by {
                            if y == b as int {
                                assert(!ships_overlap(pa, pb));
                            }
                        }
                    }
                }
                b = b + 1;
            }
            proof {
                if overlap && !before_a {
                    let y = choose|y: int| a < y < NUM_SHIPS && ships_overlap(fs[a as int], #[trigger] fs[y]);
                    assert(ships_overlap(fs[a as int], fs[y]));
                }
                if !overlap {
                    assert forall|x: int, y: int|
                        0 <= x < a + 1 && x < y < NUM_SHIPS implies !ships_overlap(#[trigger] fs[x], #[trigger] fs[y]) by {
                        if x == a as int {
                            assert(!ships_overlap(fs[a as int], fs[y]));
                        }
                    }
                }
            }
            a = a + 1;
        }
        let ok = both(in_bounds, !overlap);
        proof {
            if !overlap {
                assert forall|x: int, y: int| 0 <= x < y < fs.len() implies !ships_overlap(#[trigger] fs[x], #[trigger] fs[y]) by {}
            } else {
                let (x, y) = choose|x: int, y: int|
                    0 <= x < NUM_SHIPS && x < y < NUM_SHIPS && ships_overlap(#[trigger] fs[x], #[trigger] fs[y]);
                assert(ships_overlap(fs[x], fs[y]));
            }
        }
        ok
    }

    /// Does any ship occupy the targeted cell? (fixed-shape scan of every
    /// ship cell)
    pub fn occupies(&self, shot: Shot) -> (hit: bool)
        ensures
            hit == fleet_covers(self.placements@, shot.row, shot.col),
    {
        let ghost fs = self.placements@;
        let mut hit = false;
        let mut a: usize = 0;
        while a < NUM_SHIPS
            invariant
                fs == self.placements@,
                fs.len() == NUM_SHIPS,
                a <= NUM_SHIPS,
                hit == exists|b: int| 0 <= b < a && #[trigger] fs[b].covers(shot.row, shot.col),
            decreases NUM_SHIPS - a,
        {
            let p = self.placements[a];
            let n = p.ship.len();
            let ghost before = hit;
            let mut i: u8 = 0;
            while i < n
                invariant
                    n == p.ship.spec_len(),
                    i <= n,
                    hit == (before || exists|j: int|
                        0 <= j < i && #[trigger] p.spec_cell(j) == (shot.row, shot.col)),
                decreases n - i,
            {
                let (r, c) = p.cell(i);
                hit = either(hit, both(r == shot.row, c == shot.col));
                i = i + 1;
            }
            assert(fs[a as int] == p);
            assert(hit == exists|b: int| 0 <= b < a + 1 && #[trigger] fs[b].covers(shot.row, shot.col)) by {
                if hit && !before {
                    assert(fs[a as int].covers(shot.row, shot.col));
                }
                if !hit {
                    assert forall|b: int| 0 <= b < a + 1 implies !#[trigger] fs[b].covers(shot.row, shot.col) by {
                        if b == a {
                            assert forall|j: int| 0 <= j < p.ship.spec_len() implies #[trigger] p.spec_cell(j) != (shot.row, shot.col) by {}
                        }
                    }
                }
            }
            a = a + 1;
        }
        hit
    }

    /// True iff every cell of every ship is contained in `history`.
    pub fn all_sunk(&self, history: &[Shot]) -> (all: bool)
        ensures
            all == fleet_sunk_by(self.placements@, history@),
    {
        let ghost fs = self.placements@;
        let mut all = true;
        let mut a: usize = 0;
        while a < NUM_SHIPS
            invariant
                fs == self.placements@,
                fs.len() == NUM_SHIPS,
                a <= NUM_SHIPS,
                all == forall|b: int, j: int|
                    0 <= b < a && 0 <= j < fs[b].ship.spec_len() ==> history_has(
                        history@,
                        #[trigger] fs[b].spec_cell(j).0,
                        fs[b].spec_cell(j).1,
                    ),
            decreases NUM_SHIPS - a,
        {
            let p = self.placements[a];
            let n = p.ship.len();
            let ghost before = all;
            let mut i: u8 = 0;
            while i < n
                invariant
                    n == p.ship.spec_len(),
                    i <= n,
                    all == (before && forall|j: int|
                        0 <= j < i ==> history_has(history@, #[trigger] p.spec_cell(j).0, p.spec_cell(j).1)),
                decreases n - i,
            {
                let (r, c) = p.cell(i);
                let covered = history_covers(history, r, c);
                all = both(all, covered);
                i = i + 1;
            }
            assert(fs[a as int] == p);
            a = a + 1;
        }
        all
    }

    /// Which ship (if any) occupies the targeted cell?
    ///
    /// Ships never overlap in a valid fleet, so at most one term of the sum
    /// below is non-zero; the arithmetic select avoids a branch on the
    /// secret layout.
    pub fn ship_at(&self, shot: Shot) -> (k: Option<ShipKind>)
        ensures
            k == select_kind(hit_select(self.placements@, shot.row, shot.col, NUM_SHIPS as int)),
            no_overlap(self.placements@) ==> (k == if fleet_covers(self.placements@, shot.row, shot.col) {
                Some(self.placements@[covering_ship(self.placements@, shot.row, shot.col)].ship)
            } else {
                None
            }),
    {
        let ghost fs = self.placements@;
        let mut sel: u8 = 0;
        let mut a: usize = 0;
        while a < NUM_SHIPS
            invariant
                fs == self.placements@,
                fs.len() == NUM_SHIPS,
                a <= NUM_SHIPS,
                sel == hit_select(fs, shot.row, shot.col, a as int),
                sel <= 5 * a,
            decreases NUM_SHIPS - a,
        {
            let p = self.placements[a];
            let n = p.ship.len();
            let mut on_ship = false;
            let mut i: u8 = 0;
            while i < n
                invariant
                    n == p.ship.spec_len(),
                    i <= n,
                    on_ship == exists|j: int|
                        0 <= j < i && #[trigger] p.spec_cell(j) == (shot.row, shot.col),
                decreases n - i,
            {
                let (r, c) = p.cell(i);
                on_ship = either(on_ship, both(r == shot.row, c == shot.col));
                i = i + 1;
            }
            assert(fs[a as int] == p);
            sel = sel + select_if(on_ship, p.ship.id() + 1);
            a = a + 1;
        }
        proof {
            if no_overlap(fs) && fleet_covers(fs, shot.row, shot.col) {
                crate::fleet_laws::lemma_ship_at_names_the_ship(*self, shot);
                let a = covering_ship(fs, shot.row, shot.col);
                assert(fs[a].covers(shot.row, shot.col));
            }
            if no_overlap(fs) && !fleet_covers(fs, shot.row, shot.col) {
                crate::fleet_laws::lemma_ship_at_names_the_ship(*self, shot);
            }
        }
        ShipKind::from_id(sel.wrapping_sub(1))
    }

    /// If `shot` hits a ship AND every cell of that ship is covered by
    /// `history` together with `shot`, return the sunk ship. Otherwise None.
    ///
    /// `history` is the public list of all shots previously fired at this
    /// board: sunk-state is recomputed from public data and the board rather
    /// than carried as state.
    pub fn ship_sunk(&self, shot: Shot, history: &[Shot]) -> (k: Option<ShipKind>)
        ensures
            k == select_kind(sunk_select(self.placements@, shot, history@, NUM_SHIPS as int)),
            no_overlap(self.placements@) ==> (k == if fleet_covers(self.placements@, shot.row, shot.col)
                && fully_hit(self.placements@[covering_ship(self.placements@, shot.row, shot.col)], shot, history@) {
                Some(self.placements@[covering_ship(self.placements@, shot.row, shot.col)].ship)
            } else {
                None
            }),
    {
        let ghost fs = self.placements@;
        let mut sel: u8 = 0;
        let mut a: usize = 0;
        while a < NUM_SHIPS
            invariant
                fs == self.placements@,
                fs.len() == NUM_SHIPS,
                a <= NUM_SHIPS,
                sel == sunk_select(fs, shot, history@, a as int),
                sel <= 5 * a,
            decreases NUM_SHIPS - a,
        {
            let p = self.placements[a];
            let n = p.ship.len();
            let mut on_ship = false;
            let mut covered = true;
            let mut i: u8 = 0;
            while i < n
                invariant
                    n == p.ship.spec_len(),
                    i <= n,
                    on_ship == exists|j: int|
                        0 <= j < i && #[trigger] p.spec_cell(j) == (shot.row, shot.col),
                    covered == forall|j: int|
                        0 <= j < i ==> (#[trigger] p.spec_cell(j) == (shot.row, shot.col)
                            || history_has(history@, p.spec_cell(j).0, p.spec_cell(j).1)),
                decreases n - i,
            {
                let (r, c) = p.cell(i);
                let is_shot = both(r == shot.row, c == shot.col);
                on_ship = either(on_ship, is_shot);
                let seen = history_covers(history, r, c);
                covered = both(covered, either(is_shot, seen));
                i = i + 1;
            }
            assert(fs[a as int] == p);
            sel = sel + select_if(both(on_ship, covered), p.ship.id() + 1);
            a = a + 1;
        }
        proof {
            if no_overlap(fs) {
                crate::fleet_laws::lemma_ship_sunk_names_the_ship(*self, shot, history@);
            }
            if no_overlap(fs) && fleet_covers(fs, shot.row, shot.col) {
                let a = covering_ship(fs, shot.row, shot.col);
                assert(fs[a].covers(shot.row, shot.col));
            }
        }
        ShipKind::from_id(sel.wrapping_sub(1))
    }
}

} // verus!
