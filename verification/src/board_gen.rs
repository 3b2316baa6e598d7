//! Random board and salt generation.

use vstd::prelude::*;
use rand::rngs::StdRng;
use crate::fleet::{all_in_bounds, fleet_is_valid, kind_count, no_overlap, one_of_each, ships_overlap, Fleet};
use crate::random::{random_below, random_bytes32, random_ratio};
use crate::ship::{Orientation, Placement, ShipKind, BOARD_SIZE, NUM_SHIPS};

verus! {

/// A fresh 256-bit random salt.
pub fn random_salt(rng: &mut StdRng) -> [u8; 32] {
    random_bytes32(rng)
}

/// A fleet whose `x`-th ship has id `x` for every slot holds one of each kind.
proof fn lemma_in_id_order_is_one_of_each(fs: Seq<Placement>)
    requires
        fs.len() == NUM_SHIPS,
        forall|x: int| 0 <= x < NUM_SHIPS ==> (#[trigger] fs[x]).ship.spec_id() == x,
    ensures
        one_of_each(fs),
{
    assert forall|k: ShipKind| #[trigger] kind_count(fs, k, fs.len() as int) == 1 by {
        assert(fs[0].ship.spec_id() == 0);
        assert(fs[1].ship.spec_id() == 1);
        assert(fs[2].ship.spec_id() == 2);
        assert(fs[3].ship.spec_id() == 3);
        assert(fs[4].ship.spec_id() == 4);
        reveal_with_fuel(kind_count, 6);
    }
}

/// Some cell of `occupied` is a cell of `p`.
pub open spec fn hits_occupied(p: Placement, occupied: Seq<(u8, u8)>) -> bool {
    exists|i: int, k: int|
        0 <= i < p.ship.spec_len() && 0 <= k < occupied.len() && #[trigger] p.spec_cell(i)
            == #[trigger] occupied[k]
}

/// Placement `p` can be added to a board whose ships occupy `occupied`: it
/// lies on the board and none of its cells is already occupied.
pub open spec fn fits(p: Placement, occupied: Seq<(u8, u8)>) -> bool {
    p.spec_in_bounds() && !hits_occupied(p, occupied)
}

/// The candidate placement of `ship` described by one round of draws.
pub open spec fn candidate(ship: ShipKind, horizontal: bool, row: u8, col: u8) -> Placement {
    Placement {
        ship,
        row,
        col,
        orientation: if horizontal {
            Orientation::Horizontal
        } else {
            Orientation::Vertical
        },
    }
}

/// The cells of `ps`, ship after ship.
pub open spec fn fleet_cells(ps: Seq<Placement>) -> Seq<(u8, u8)>
    decreases ps.len(),
{
    if ps.len() == 0 {
        seq![]
    } else {
        fleet_cells(ps.drop_last()) + ps.last().spec_cells()
    }
}

/// The first of `cands` that fits next to `occupied`, if any.
pub open spec fn first_fit(cands: Seq<Placement>, occupied: Seq<(u8, u8)>) -> Option<Placement>
    decreases cands.len(),
{
    if cands.len() == 0 {
        None
    } else {
        match first_fit(cands.drop_last(), occupied) {
            Some(p) => Some(p),
            None => if fits(cands.last(), occupied) {
                Some(cands.last())
            } else {
                None
            },
        }
    }
}

/// The ships placed by the first `m` rounds of `trace`, where round `x`
/// holds the candidates drawn for the `x`-th ship: each ship takes the first
/// of its candidates that fits next to the ships placed before it; `None`
/// once some ship found none.
pub open spec fn placed_by(trace: Seq<Seq<Placement>>, m: int) -> Option<Seq<Placement>>
    decreases m,
{
    if m <= 0 {
        Some(seq![])
    } else {
        match placed_by(trace, m - 1) {
            None => None,
            Some(ps) => match first_fit(trace[m - 1], fleet_cells(ps)) {
                None => None,
                Some(p) => Some(ps.push(p)),
            },
        }
    }
}

/// Round `m` of `trace` was drawn as the fleet generator draws: between 1
/// and 200 candidates of the ship with id `m`, each with row and column
/// below the board size, drawn until the first one that fits, or all 200
/// when none does.
pub open spec fn drawn_well(trace: Seq<Seq<Placement>>, m: int) -> bool {
    &&& 1 <= trace[m].len() <= 200
    &&& forall|j: int|
        0 <= j < trace[m].len() ==> (#[trigger] trace[m][j]).ship.spec_id() == m && trace[m][j].row
            < BOARD_SIZE && trace[m][j].col < BOARD_SIZE
    &&& placed_by(trace, m) is Some
    &&& match first_fit(trace[m], fleet_cells(placed_by(trace, m).unwrap())) {
        None => trace[m].len() == 200,
        Some(p) => p == trace[m].last(),
    }
}

proof fn lemma_first_fit_push(cands: Seq<Placement>, c: Placement, occupied: Seq<(u8, u8)>)
    ensures
        first_fit(cands.push(c), occupied) == match first_fit(cands, occupied) {
            Some(p) => Some(p),
            None => if fits(c, occupied) {
                Some(c)
            } else {
                None
            },
        },
{
    assert(cands.push(c).drop_last() =~= cands);
}

proof fn lemma_first_fit_fits(cands: Seq<Placement>, occupied: Seq<(u8, u8)>)
    ensures
        first_fit(cands, occupied) matches Some(p) ==> fits(p, occupied),
    decreases cands.len(),
{
    if cands.len() > 0 {
        lemma_first_fit_fits(cands.drop_last(), occupied);
    }
}

proof fn lemma_placed_by_prefix(trace: Seq<Seq<Placement>>, round: Seq<Placement>, m: int)
    requires
        0 <= m <= trace.len(),
    ensures
        placed_by(trace.push(round), m) == placed_by(trace, m),
    decreases m,
{
    if m > 0 {
        lemma_placed_by_prefix(trace, round, m - 1);
        assert(trace.push(round)[m - 1] == trace[m - 1]);
    }
}

/// The candidate placement of `ship` at `(row, col)`, horizontal or
/// vertical as `horizontal` says, when it fits next to the ships occupying
/// `occupied`; otherwise `None`.
pub fn place_candidate(ship: ShipKind, horizontal: bool, row: u8, col: u8, occupied: &Vec<(u8, u8)>) -> (p:
    Option<Placement>)
    ensures
        p == if fits(candidate(ship, horizontal, row, col), occupied@) {
            Some(candidate(ship, horizontal, row, col))
        } else {
            None
        },
{
    let orientation = if horizontal {
        Orientation::Horizontal
    } else {
        Orientation::Vertical
    };
    let c = Placement { ship, row, col, orientation };
    if !c.in_bounds() {
        return None;
    }
    let cells = c.cells();
    // Does any cell of the candidate already hold a ship?
    let mut clash = false;
    let mut i: usize = 0;
    while i < cells.len()
        invariant
            cells@ == c.spec_cells(),
            i <= cells@.len(),
            clash == exists|j: int, k: int|
                0 <= j < i && 0 <= k < occupied@.len() && #[trigger] cells@[j] == #[trigger] occupied@[k],
        decreases cells@.len() - i,
    {
        let mut k: usize = 0;
        let ghost before = clash;
        while k < occupied.len()
            invariant
                i < cells@.len(),
                k <= occupied@.len(),
                clash == (before || exists|kk: int| 0 <= kk < k && cells@[i as int] == #[trigger] occupied@[kk]),
            decreases occupied@.len() - k,
        {
            let (r1, c1) = cells[i];
            let (r2, c2) = occupied[k];
            if r1 == r2 && c1 == c2 {
                clash = true;
            }
            k = k + 1;
        }
        proof {
            if clash && !before {
                let kk = choose|kk: int| 0 <= kk < k && cells@[i as int] == #[trigger] occupied@[kk];
                assert(cells@[i as int] == occupied@[kk]);
            }
            if !clash {
                assert forall|j: int, kk: int|
                    0 <= j < i + 1 && 0 <= kk < occupied@.len() implies #[trigger] cells@[j]
                        != #[trigger] occupied@[kk] by {
                    if j == i as int {
                        assert(cells@[i as int] != occupied@[kk]);
                    }
                }
            }
        }
        i = i + 1;
    }
    proof {
        if clash {
            let (j, k) = choose|j: int, k: int|
                0 <= j < cells@.len() && 0 <= k < occupied@.len() && #[trigger] cells@[j] == #[trigger] occupied@[k];
            assert(c.spec_cell(j) == occupied@[k]);
        } else {
            assert forall|j: int, k: int|
                0 <= j < c.ship.spec_len() && 0 <= k < occupied@.len() implies #[trigger] c.spec_cell(j)
                    != #[trigger] occupied@[k] by {
                assert(cells@[j] == c.spec_cell(j));
            }
        }
    }
    if clash {
        None
    } else {
        Some(c)
    }
}

/// One attempt at a uniformly-placed valid fleet: ships are placed one at a
/// time, each drawing up to 200 random candidates (orientation, row,
/// column) and taking the first that fits; `None` if some ship found no
/// place. The second result records, ship by ship, the candidates drawn.
fn try_random_fleet(rng: &mut StdRng) -> (r: (Option<Fleet>, Ghost<Seq<Seq<Placement>>>))
    ensures
        1 <= r.1@.len() <= NUM_SHIPS,
        forall|m: int| 0 <= m < r.1@.len() ==> drawn_well(r.1@, m),
        r.0 is Some <==> placed_by(r.1@, r.1@.len() as int) is Some,
        r.0 matches Some(f) ==> {
            &&& r.1@.len() == NUM_SHIPS
            &&& f.placements@ == placed_by(r.1@, NUM_SHIPS as int).unwrap()
            &&& fleet_is_valid(f.placements@)
            &&& forall|x: int| 0 <= x < NUM_SHIPS ==> (#[trigger] f.placements@[x]).ship.spec_id() == x
        },
{
    let mut occupied: Vec<(u8, u8)> = Vec::new();
    let mut placements: Vec<Placement> = Vec::with_capacity(NUM_SHIPS);
    let ghost mut trace: Seq<Seq<Placement>> = seq![];
    let kinds = ShipKind::all();
    let mut m: usize = 0;
    while m < NUM_SHIPS
        invariant
            m <= NUM_SHIPS,
            placements@.len() == m,
            trace.len() == m,
            placed_by(trace, m as int) == Some(placements@),
            occupied@ == fleet_cells(placements@),
            forall|x: int| 0 <= x < m ==> drawn_well(trace, x),
            forall|x: int| 0 <= x < NUM_SHIPS ==> (#[trigger] kinds@[x]).spec_id() == x,
            forall|x: int| 0 <= x < m ==> (#[trigger] placements@[x]).ship.spec_id() == x,
            forall|x: int| 0 <= x < m ==> (#[trigger] placements@[x]).spec_in_bounds(),
            forall|x: int, y: int|
                0 <= x < y < m ==> !ships_overlap(#[trigger] placements@[x], #[trigger] placements@[y]),
            forall|x: int, i: int|
                0 <= x < m && 0 <= i < placements@[x].ship.spec_len() ==> occupied@.contains(
                    #[trigger] placements@[x].spec_cell(i),
                ),
        decreases NUM_SHIPS - m,
    {
        let ship = kinds[m];
        let mut placed: Option<Placement> = None;
        let ghost mut cands: Seq<Placement> = seq![];
        let mut attempt: u32 = 0;
        // Bounded attempts per ship before giving up on the fleet.
        while attempt < 200 && placed.is_none()
            invariant
                m < NUM_SHIPS,
                ship.spec_id() == m,
                attempt <= 200,
                cands.len() == attempt,
                forall|j: int|
                    0 <= j < cands.len() ==> (#[trigger] cands[j]).ship == ship && cands[j].row < BOARD_SIZE
                        && cands[j].col < BOARD_SIZE,
                placed is None ==> first_fit(cands, occupied@) is None,
                placed matches Some(p) ==> attempt >= 1 && first_fit(cands, occupied@) == Some(p) && p
                    == cands.last(),
            decreases 200 - attempt,
        {
            let horizontal = random_ratio(rng, 1, 2);
            let row = random_below(rng, BOARD_SIZE);
            let col = random_below(rng, BOARD_SIZE);
            proof {
                lemma_first_fit_push(cands, candidate(ship, horizontal, row, col), occupied@);
                cands = cands.push(candidate(ship, horizontal, row, col));
            }
            placed = place_candidate(ship, horizontal, row, col, &occupied);
            attempt = attempt + 1;
        }
        let ghost old_trace = trace;
        proof {
            trace = trace.push(cands);
            lemma_placed_by_prefix(old_trace, cands, m as int);
            assert(trace[m as int] == cands);
            assert forall|x: int| 0 <= x < m implies drawn_well(trace, x) by {
                lemma_placed_by_prefix(old_trace, cands, x);
                assert(trace[x] == old_trace[x]);
                assert(drawn_well(old_trace, x));
            }
            assert(forall|j: int| 0 <= j < cands.len() ==> (#[trigger] cands[j]).ship.spec_id() == m);
            assert(drawn_well(trace, m as int));
        }
        let p = match placed {
            None => {
                return (None, Ghost(trace));
            },
            Some(p) => p,
        };
        let cells = p.cells();
        proof {
            lemma_first_fit_fits(cands, occupied@);
            assert(fits(p, occupied@));
            assert forall|x: int| 0 <= x < placements@.len() implies !ships_overlap(
                #[trigger] placements@[x],
                p,
            ) by {
                if ships_overlap(placements@[x], p) {
                    let (i1, j1) = choose|i1: int, j1: int|
                        0 <= i1 < placements@[x].ship.spec_len() && 0 <= j1 < p.ship.spec_len()
                            && #[trigger] placements@[x].spec_cell(i1) == #[trigger] p.spec_cell(j1);
                    assert(occupied@.contains(placements@[x].spec_cell(i1)));
                    let kk = choose|kk: int| 0 <= kk < occupied@.len() && occupied@[kk] == placements@[x].spec_cell(i1);
                    assert(p.spec_cell(j1) == occupied@[kk]);
                }
            }
        }
        let ghost old_occupied = occupied@;
        let ghost old_placements = placements@;
        let mut i: usize = 0;
        while i < cells.len()
            invariant
                cells@ == p.spec_cells(),
                i <= cells@.len(),
                occupied@ == old_occupied + cells@.take(i as int),
            decreases cells@.len() - i,
        {
            occupied.push(cells[i]);
            assert(occupied@ =~= old_occupied + cells@.take(i + 1));
            i = i + 1;
        }
        assert(cells@.take(cells@.len() as int) =~= cells@);
        placements.push(p);
        proof {
            assert(placements@.drop_last() =~= old_placements);
            assert(occupied@ =~= fleet_cells(placements@));
            assert forall|x: int, i: int|
                0 <= x < placements@.len() && 0 <= i < placements@[x].ship.spec_len()
                    implies occupied@.contains(#[trigger] placements@[x].spec_cell(i)) by {
                if x < old_placements.len() {
                    assert(placements@[x] == old_placements[x]);
                    assert(old_occupied.contains(old_placements[x].spec_cell(i)));
                    let kk = choose|kk: int| 0 <= kk < old_occupied.len() && old_occupied[kk] == old_placements[x].spec_cell(i);
                    assert(occupied@[kk] == old_occupied[kk]);
                } else {
                    assert(occupied@[old_occupied.len() + i] == cells@[i]);
                }
            }
        }
        m = m + 1;
    }
    let fleet = Fleet {
        placements: [placements[0], placements[1], placements[2], placements[3], placements[4]],
    };
    proof {
        let fs = fleet.placements@;
        assert(fs =~= placements@);
        lemma_in_id_order_is_one_of_each(fs);
        assert(all_in_bounds(fs));
        assert(no_overlap(fs));
    }
    (Some(fleet), Ghost(trace))
}

/// The layout used when no random fleet is found.
fn standard_fleet() -> (f: Fleet)
    ensures
        fleet_is_valid(f.placements@),
        forall|x: int| 0 <= x < NUM_SHIPS ==> (#[trigger] f.placements@[x]).ship.spec_id() == x,
{
    let f = Fleet {
        placements: [
            Placement { ship: ShipKind::Carrier, row: 0, col: 0, orientation: Orientation::Horizontal },
            Placement { ship: ShipKind::Battleship, row: 2, col: 0, orientation: Orientation::Horizontal },
            Placement { ship: ShipKind::Cruiser, row: 4, col: 0, orientation: Orientation::Horizontal },
            Placement { ship: ShipKind::Submarine, row: 6, col: 0, orientation: Orientation::Horizontal },
            Placement { ship: ShipKind::Destroyer, row: 8, col: 0, orientation: Orientation::Horizontal },
        ],
    };
    proof {
        let fs = f.placements@;
        lemma_in_id_order_is_one_of_each(fs);
        assert forall|x: int| 0 <= x < NUM_SHIPS implies #[trigger] fs[x].spec_in_bounds() by {}
        assert forall|x: int, y: int| 0 <= x < y < NUM_SHIPS implies !ships_overlap(#[trigger] fs[x], #[trigger] fs[y]) by {
            assert forall|i: int, j: int|
                0 <= i < fs[x].ship.spec_len() && 0 <= j < fs[y].ship.spec_len() implies #[trigger] fs[x].spec_cell(i)
                    != #[trigger] fs[y].spec_cell(j) by {
                assert(fs[x].spec_cell(i).0 == 2 * x);
                assert(fs[y].spec_cell(j).0 == 2 * y);
            }
        }
    }
    f
}

/// A uniformly-placed valid fleet (one of each ship, on-board, no overlap).
/// Ships are placed one at a time with rejection, restarting the whole fleet
/// when a ship finds no place. The restarts are bounded by `u32::MAX`; a run
/// that exhausts them returns the standard layout with every ship horizontal
/// on rows 0, 2, 4, 6 and 8.
pub fn random_fleet(rng: &mut StdRng) -> (f: Fleet)
    ensures
        fleet_is_valid(f.placements@),
        forall|x: int| 0 <= x < NUM_SHIPS ==> (#[trigger] f.placements@[x]).ship.spec_id() == x,
{
    let mut restarts: u32 = 0;
    while restarts < u32::MAX
        decreases u32::MAX - restarts,
    {
        let (attempt, _drawn) = try_random_fleet(rng);
        if let Some(fleet) = attempt {
            return fleet;
        }
        restarts = restarts + 1;
    }
    standard_fleet()
}

} // verus!
