//! Laws that relate the fleet queries to each other and to the rules.

use vstd::prelude::*;
use crate::fleet::{
    all_in_bounds, fleet_covers, fleet_is_valid, fleet_sunk_by, fully_hit, history_has, hit_select,
    kind_count, no_overlap, one_of_each, select_kind, ships_overlap, sunk_select, Fleet,
};
use crate::ship::{kind_of_id, lemma_in_bounds_iff_cells_on_board, Orientation, Placement, ShipKind, Shot, NUM_SHIPS, TOTAL_SHIP_CELLS, BOARD_SIZE};

verus! {

/// Two different ships of a fleet without overlaps never cover the same cell.
proof fn lemma_single_cover(fs: Seq<Placement>, a: int, b: int, r: u8, c: u8)
    requires
        no_overlap(fs),
        0 <= a < fs.len(),
        0 <= b < fs.len(),
        a != b,
        fs[a].covers(r, c),
    ensures
        !fs[b].covers(r, c),
{
    if fs[b].covers(r, c) {
        let i = choose|i: int| 0 <= i < fs[a].ship.spec_len() && #[trigger] fs[a].spec_cell(i) == (r, c);
        let j = choose|j: int| 0 <= j < fs[b].ship.spec_len() && #[trigger] fs[b].spec_cell(j) == (r, c);
        if a < b {
            assert(ships_overlap(fs[a], fs[b]));
        } else {
            assert(ships_overlap(fs[b], fs[a]));
        }
    }
}

/// The hit selector sum over a prefix in which only ship `a` may cover the cell.
proof fn lemma_hit_select_single(fs: Seq<Placement>, r: u8, c: u8, n: int, a: int)
    requires
        0 <= n <= fs.len(),
        forall|b: int| 0 <= b < n && b != a ==> !(#[trigger] fs[b].covers(r, c)),
    ensures
        hit_select(fs, r, c, n) == if 0 <= a < n && fs[a].covers(r, c) {
            fs[a].ship.spec_id() + 1
        } else {
            0
        },
    decreases n,
{
    if n > 0 {
        lemma_hit_select_single(fs, r, c, n - 1, a);
    }
}

/// The sunk selector sum over a prefix in which only ship `a` may be hit.
proof fn lemma_sunk_select_single(fs: Seq<Placement>, shot: Shot, h: Seq<Shot>, n: int, a: int)
    requires
        0 <= n <= fs.len(),
        forall|b: int| 0 <= b < n && b != a ==> !(#[trigger] fs[b].covers(shot.row, shot.col)),
    ensures
        sunk_select(fs, shot, h, n) == if 0 <= a < n && fs[a].covers(shot.row, shot.col) && fully_hit(
            fs[a],
            shot,
            h,
        ) {
            fs[a].ship.spec_id() + 1
        } else {
            0
        },
    decreases n,
{
    if n > 0 {
        lemma_sunk_select_single(fs, shot, h, n - 1, a);
    }
}

/// A selector sum is positive only if some ship of the prefix covers the cell.
proof fn lemma_sunk_select_positive(fs: Seq<Placement>, shot: Shot, h: Seq<Shot>, n: int)
    requires
        0 <= n <= fs.len(),
        sunk_select(fs, shot, h, n) != 0,
    ensures
        exists|a: int| 0 <= a < n && #[trigger] fs[a].covers(shot.row, shot.col),
    decreases n,
{
    if n > 0 {
        if sunk_select(fs, shot, h, n - 1) != 0 {
            lemma_sunk_select_positive(fs, shot, h, n - 1);
            let a = choose|a: int| 0 <= a < n - 1 && #[trigger] fs[a].covers(shot.row, shot.col);
            assert(fs[a].covers(shot.row, shot.col));
        } else {
            assert(fs[n - 1].covers(shot.row, shot.col));
        }
    }
}

proof fn lemma_hit_select_positive(fs: Seq<Placement>, r: u8, c: u8, n: int)
    requires
        0 <= n <= fs.len(),
        hit_select(fs, r, c, n) != 0,
    ensures
        exists|a: int| 0 <= a < n && #[trigger] fs[a].covers(r, c),
    decreases n,
{
    if n > 0 {
        if hit_select(fs, r, c, n - 1) != 0 {
            lemma_hit_select_positive(fs, r, c, n - 1);
            let a = choose|a: int| 0 <= a < n - 1 && #[trigger] fs[a].covers(r, c);
            assert(fs[a].covers(r, c));
        } else {
            assert(fs[n - 1].covers(r, c));
        }
    }
}

/// Law: in a fleet whose ships do not overlap, `ship_at` names the ship
/// that covers the cell, and gives `None` exactly on open water.
pub proof fn lemma_ship_at_names_the_ship(f: Fleet, shot: Shot)
    requires
        no_overlap(f.placements@),
    ensures
        forall|a: int|
            0 <= a < NUM_SHIPS && #[trigger] f.placements@[a].covers(shot.row, shot.col) ==> select_kind(
                hit_select(f.placements@, shot.row, shot.col, NUM_SHIPS as int),
            ) == Some(f.placements@[a].ship),
        !fleet_covers(f.placements@, shot.row, shot.col) ==> select_kind(
            hit_select(f.placements@, shot.row, shot.col, NUM_SHIPS as int),
        ) is None,
{
    let fs = f.placements@;
    assert forall|a: int|
        0 <= a < NUM_SHIPS && #[trigger] fs[a].covers(shot.row, shot.col) implies select_kind(
            hit_select(fs, shot.row, shot.col, NUM_SHIPS as int),
        ) == Some(fs[a].ship) by {
        assert forall|b: int| 0 <= b < NUM_SHIPS && b != a implies !(#[trigger] fs[b].covers(shot.row, shot.col)) by {
            lemma_single_cover(fs, a, b, shot.row, shot.col);
        }
        lemma_hit_select_single(fs, shot.row, shot.col, NUM_SHIPS as int, a);
        assert(kind_of_id(fs[a].ship.spec_id()) == Some(fs[a].ship));
    }
    if !fleet_covers(fs, shot.row, shot.col) {
        lemma_hit_select_single(fs, shot.row, shot.col, NUM_SHIPS as int, -1);
    }
}

/// Law: in a fleet whose ships do not overlap, `ship_sunk` names the ship
/// that `shot` hits when `shot` together with `history` covers all of its
/// cells, and gives `None` otherwise.
pub proof fn lemma_ship_sunk_names_the_ship(f: Fleet, shot: Shot, history: Seq<Shot>)
    requires
        no_overlap(f.placements@),
    ensures
        forall|a: int|
            0 <= a < NUM_SHIPS && #[trigger] f.placements@[a].covers(shot.row, shot.col) ==> select_kind(
                sunk_select(f.placements@, shot, history, NUM_SHIPS as int),
            ) == if fully_hit(f.placements@[a], shot, history) {
                Some(f.placements@[a].ship)
            } else {
                None
            },
        !fleet_covers(f.placements@, shot.row, shot.col) ==> select_kind(
            sunk_select(f.placements@, shot, history, NUM_SHIPS as int),
        ) is None,
{
    let fs = f.placements@;
    assert forall|a: int|
        0 <= a < NUM_SHIPS && #[trigger] fs[a].covers(shot.row, shot.col) implies select_kind(
            sunk_select(fs, shot, history, NUM_SHIPS as int),
        ) == if fully_hit(fs[a], shot, history) {
            Some(fs[a].ship)
        } else {
            None
        } by {
        assert forall|b: int| 0 <= b < NUM_SHIPS && b != a implies !(#[trigger] fs[b].covers(shot.row, shot.col)) by {
            lemma_single_cover(fs, a, b, shot.row, shot.col);
        }
        lemma_sunk_select_single(fs, shot, history, NUM_SHIPS as int, a);
        assert(kind_of_id(fs[a].ship.spec_id()) == Some(fs[a].ship));
    }
    if !fleet_covers(fs, shot.row, shot.col) {
        lemma_sunk_select_single(fs, shot, history, NUM_SHIPS as int, -1);
    }
}

/// Law: a shot that sinks a ship, or that lands on a ship, is a hit: in any
/// fleet, `ship_sunk` and `ship_at` give `Some` only where `occupies` holds.
pub proof fn lemma_sunk_or_named_implies_hit(f: Fleet, shot: Shot, history: Seq<Shot>)
    ensures
        select_kind(sunk_select(f.placements@, shot, history, NUM_SHIPS as int)) is Some
            ==> fleet_covers(f.placements@, shot.row, shot.col),
        select_kind(hit_select(f.placements@, shot.row, shot.col, NUM_SHIPS as int)) is Some
            ==> fleet_covers(f.placements@, shot.row, shot.col),
{
    let fs = f.placements@;
    if sunk_select(fs, shot, history, NUM_SHIPS as int) != 0 {
        lemma_sunk_select_positive(fs, shot, history, NUM_SHIPS as int);
    }
    if hit_select(fs, shot.row, shot.col, NUM_SHIPS as int) != 0 {
        lemma_hit_select_positive(fs, shot.row, shot.col, NUM_SHIPS as int);
    }
}

/// Law: once a fleet is sunk it stays sunk: further shots never undo defeat.
pub proof fn lemma_defeat_is_permanent(f: Fleet, history: Seq<Shot>, more: Seq<Shot>)
    requires
        fleet_sunk_by(f.placements@, history),
    ensures
        fleet_sunk_by(f.placements@, history + more),
{
    let fs = f.placements@;
    assert forall|a: int, i: int|
        0 <= a < fs.len() && 0 <= i < fs[a].ship.spec_len() implies history_has(
            history + more,
            #[trigger] fs[a].spec_cell(i).0,
            fs[a].spec_cell(i).1,
        ) by {
        assert(history_has(history, fs[a].spec_cell(i).0, fs[a].spec_cell(i).1));
        let k = choose|k: int| 0 <= k < history.len() && #[trigger] history[k] == (Shot { row: fs[a].spec_cell(i).0, col: fs[a].spec_cell(i).1 });
        assert((history + more)[k] == history[k]);
    }
}

/// Law: defeat comes only from a hit, and the shot that completes it sinks a
/// ship. If `history` leaves some ship cell unhit but `history` followed by
/// `shot` covers every ship cell, then `shot` lands on a ship, and in a fleet
/// without overlaps `ship_sunk(shot, history)` names that ship.
pub proof fn lemma_final_shot_hits_and_sinks(f: Fleet, shot: Shot, history: Seq<Shot>)
    requires
        !fleet_sunk_by(f.placements@, history),
        fleet_sunk_by(f.placements@, history.push(shot)),
    ensures
        fleet_covers(f.placements@, shot.row, shot.col),
        no_overlap(f.placements@) ==> select_kind(
            sunk_select(f.placements@, shot, history, NUM_SHIPS as int),
        ) is Some,
{
    let fs = f.placements@;
    let (a, i) = choose|a: int, i: int|
        0 <= a < fs.len() && 0 <= i < fs[a].ship.spec_len() && !history_has(
            history,
            #[trigger] fs[a].spec_cell(i).0,
            fs[a].spec_cell(i).1,
        );
    let cell = fs[a].spec_cell(i);
    assert(history_has(history.push(shot), cell.0, cell.1));
    let k = choose|k: int| 0 <= k < history.push(shot).len() && #[trigger] history.push(shot)[k] == (Shot { row: cell.0, col: cell.1 });
    if k < history.len() {
        assert(history.push(shot)[k] == history[k]);
        assert(false);
    }
    assert(shot == (Shot { row: cell.0, col: cell.1 }));
    assert(fs[a].spec_cell(i) == (shot.row, shot.col));
    assert(fs[a].covers(shot.row, shot.col));
    assert(fully_hit(fs[a], shot, history)) by {
        assert forall|j: int| 0 <= j < fs[a].ship.spec_len() implies (#[trigger] fs[a].spec_cell(j) == (
        shot.row, shot.col) || history_has(history, fs[a].spec_cell(j).0, fs[a].spec_cell(j).1)) by {
            let cj = fs[a].spec_cell(j);
            assert(history_has(history.push(shot), cj.0, cj.1));
            let m = choose|m: int| 0 <= m < history.push(shot).len() && #[trigger] history.push(shot)[m] == (Shot { row: cj.0, col: cj.1 });
            if m < history.len() {
                assert(history.push(shot)[m] == history[m]);
            }
        }
    }
    if no_overlap(fs) {
        lemma_ship_sunk_names_the_ship(f, shot, history);
    }
}

/// The cells of ship `p`, as shots, in order.
pub open spec fn ship_shots(p: Placement) -> Seq<Shot> {
    Seq::new(p.ship.spec_len() as nat, |i: int| Shot { row: p.spec_cell(i).0, col: p.spec_cell(i).1 })
}

/// The cells of the first `n` ships of `fs`, as shots, ship after ship.
pub open spec fn fleet_shots(fs: Seq<Placement>, n: int) -> Seq<Shot>
    decreases n,
{
    if n <= 0 {
        seq![]
    } else {
        fleet_shots(fs, n - 1) + ship_shots(fs[n - 1])
    }
}

proof fn lemma_fleet_shots_len(fs: Seq<Placement>, n: int)
    requires
        0 <= n <= fs.len(),
    ensures
        fleet_shots(fs, n).len() == 5 * kind_count(fs, ShipKind::Carrier, n) + 4 * kind_count(
            fs,
            ShipKind::Battleship,
            n,
        ) + 3 * kind_count(fs, ShipKind::Cruiser, n) + 3 * kind_count(fs, ShipKind::Submarine, n) + 2
            * kind_count(fs, ShipKind::Destroyer, n),
    decreases n,
{
    if n > 0 {
        lemma_fleet_shots_len(fs, n - 1);
    }
}

/// Each shot of `fleet_shots(fs, n)` is a cell of one of the first `n` ships.
proof fn lemma_fleet_shots_members(fs: Seq<Placement>, n: int)
    requires
        0 <= n <= fs.len(),
    ensures
        forall|k: int|
            0 <= k < fleet_shots(fs, n).len() ==> #[trigger] ship_cell_of(fs, n, fleet_shots(fs, n)[k]),
    decreases n,
{
    if n > 0 {
        lemma_fleet_shots_members(fs, n - 1);
        let prev = fleet_shots(fs, n - 1);
        let cur = fleet_shots(fs, n);
        assert forall|k: int| 0 <= k < cur.len() implies #[trigger] ship_cell_of(fs, n, cur[k]) by {
            if k < prev.len() {
                assert(cur[k] == prev[k]);
                assert(ship_cell_of(fs, n - 1, prev[k]));
                let (a, i) = choose|a: int, i: int|
                    0 <= a < n - 1 && 0 <= i < fs[a].ship.spec_len() && #[trigger] fs[a].spec_cell(i) == (
                    prev[k].row, prev[k].col);
                assert(fs[a].spec_cell(i) == (cur[k].row, cur[k].col));
            } else {
                let i = k - prev.len();
                assert(cur[k] == ship_shots(fs[n - 1])[i]);
                assert(fs[n - 1].spec_cell(i) == (cur[k].row, cur[k].col));
            }
        }
    }
}

/// Shot `x` is a cell of one of the first `n` ships of `fs`.
pub open spec fn ship_cell_of(fs: Seq<Placement>, n: int, x: Shot) -> bool {
    exists|a: int, i: int|
        0 <= a < n && 0 <= i < fs[a].ship.spec_len() && #[trigger] fs[a].spec_cell(i) == (x.row, x.col)
}

/// The cells of a ship that lies on the board are pairwise different.
proof fn lemma_ship_shots_distinct(p: Placement)
    requires
        p.spec_in_bounds(),
    ensures
        ship_shots(p).no_duplicates(),
{
    assert forall|i: int, j: int|
        0 <= i < ship_shots(p).len() && 0 <= j < ship_shots(p).len() && i != j implies ship_shots(p)[i]
        != ship_shots(p)[j] by {
        match p.orientation {
            Orientation::Horizontal => {
                assert(ship_shots(p)[i].col == p.col + i);
                assert(ship_shots(p)[j].col == p.col + j);
            },
            Orientation::Vertical => {
                assert(ship_shots(p)[i].row == p.row + i);
                assert(ship_shots(p)[j].row == p.row + j);
            },
        }
    }
}

proof fn lemma_fleet_shots_distinct(fs: Seq<Placement>, n: int)
    requires
        0 <= n <= fs.len(),
        all_in_bounds(fs),
        no_overlap(fs),
    ensures
        fleet_shots(fs, n).no_duplicates(),
    decreases n,
{
    if n > 0 {
        lemma_fleet_shots_distinct(fs, n - 1);
        lemma_fleet_shots_members(fs, n - 1);
        lemma_ship_shots_distinct(fs[n - 1]);
        let prev = fleet_shots(fs, n - 1);
        let last = ship_shots(fs[n - 1]);
        let cur = fleet_shots(fs, n);
        assert forall|i: int, j: int| 0 <= i < cur.len() && 0 <= j < cur.len() && i != j implies cur[i] != cur[j] by {
            if i < prev.len() && j >= prev.len() {
                assert(cur[i] == prev[i]);
                assert(cur[j] == last[j - prev.len()]);
                assert(ship_cell_of(fs, n - 1, prev[i]));
                let (a, x) = choose|a: int, x: int|
                    0 <= a < n - 1 && 0 <= x < fs[a].ship.spec_len() && #[trigger] fs[a].spec_cell(x) == (
                    prev[i].row, prev[i].col);
                if cur[i] == cur[j] {
                    assert(fs[a].spec_cell(x) == fs[n - 1].spec_cell(j - prev.len()));
                    assert(ships_overlap(fs[a], fs[n - 1]));
                }
            } else if j < prev.len() && i >= prev.len() {
                assert(cur[j] == prev[j]);
                assert(cur[i] == last[i - prev.len()]);
                assert(ship_cell_of(fs, n - 1, prev[j]));
                let (a, x) = choose|a: int, x: int|
                    0 <= a < n - 1 && 0 <= x < fs[a].ship.spec_len() && #[trigger] fs[a].spec_cell(x) == (
                    prev[j].row, prev[j].col);
                if cur[i] == cur[j] {
                    assert(fs[a].spec_cell(x) == fs[n - 1].spec_cell(i - prev.len()));
                    assert(ships_overlap(fs[a], fs[n - 1]));
                }
            } else if i < prev.len() {
                assert(cur[i] == prev[i] && cur[j] == prev[j]);
            } else {
                assert(cur[i] == last[i - prev.len()] && cur[j] == last[j - prev.len()]);
            }
        }
    }
}

/// Law: a legal fleet occupies exactly `TOTAL_SHIP_CELLS` (17) different
/// cells, and a history that sinks it holds at least that many shots:
/// victory requires a hit on every ship cell.
pub proof fn lemma_sinking_needs_every_cell(f: Fleet, history: Seq<Shot>)
    requires
        fleet_is_valid(f.placements@),
    ensures
        fleet_shots(f.placements@, NUM_SHIPS as int).len() == TOTAL_SHIP_CELLS,
        fleet_shots(f.placements@, NUM_SHIPS as int).no_duplicates(),
        fleet_sunk_by(f.placements@, history) ==> history.len() >= TOTAL_SHIP_CELLS,
{
    let fs = f.placements@;
    lemma_fleet_shots_len(fs, NUM_SHIPS as int);
    assert(kind_count(fs, ShipKind::Carrier, fs.len() as int) == 1);
    assert(kind_count(fs, ShipKind::Battleship, fs.len() as int) == 1);
    assert(kind_count(fs, ShipKind::Cruiser, fs.len() as int) == 1);
    assert(kind_count(fs, ShipKind::Submarine, fs.len() as int) == 1);
    assert(kind_count(fs, ShipKind::Destroyer, fs.len() as int) == 1);
    lemma_fleet_shots_distinct(fs, NUM_SHIPS as int);
    let cells = fleet_shots(fs, NUM_SHIPS as int);
    if fleet_sunk_by(fs, history) {
        lemma_fleet_shots_members(fs, NUM_SHIPS as int);
        cells.unique_seq_to_set();
        history.lemma_cardinality_of_set();
        assert(cells.to_set().subset_of(history.to_set())) by {
            assert forall|x: Shot| cells.to_set().contains(x) implies history.to_set().contains(x) by {
                let k = choose|k: int| 0 <= k < cells.len() && cells[k] == x;
                assert(ship_cell_of(fs, NUM_SHIPS as int, cells[k]));
                let (a, i) = choose|a: int, i: int|
                    0 <= a < NUM_SHIPS && 0 <= i < fs[a].ship.spec_len() && #[trigger] fs[a].spec_cell(i) == (
                    x.row, x.col);
                assert(history_has(history, fs[a].spec_cell(i).0, fs[a].spec_cell(i).1));
                let m = choose|m: int| 0 <= m < history.len() && #[trigger] history[m] == (Shot { row: fs[a].spec_cell(i).0, col: fs[a].spec_cell(i).1 });
                assert(history[m] == x);
            }
        }
        vstd::set_lib::lemma_len_subset(cells.to_set(), history.to_set());
    }
}

/// Law: a fleet is valid exactly when it has one ship of each kind, every
/// cell of every ship lies on the 10x10 board, and no two ships share a cell.
pub proof fn lemma_valid_iff_cells_on_board(f: Fleet)
    ensures
        f.placements@.len() == NUM_SHIPS,
        fleet_is_valid(f.placements@) <==> {
            &&& one_of_each(f.placements@)
            &&& forall|a: int, i: int|
                0 <= a < NUM_SHIPS && 0 <= i < f.placements@[a].ship.spec_len() ==> (
                #[trigger] f.placements@[a].spec_cell(i)).0 < BOARD_SIZE && f.placements@[a].spec_cell(i).1
                    < BOARD_SIZE
            &&& no_overlap(f.placements@)
        },
{
    let fs = f.placements@;
    let cells_on_board = forall|a: int, i: int|
        0 <= a < NUM_SHIPS && 0 <= i < fs[a].ship.spec_len() ==> (#[trigger] fs[a].spec_cell(i)).0
            < BOARD_SIZE && fs[a].spec_cell(i).1 < BOARD_SIZE;
    if all_in_bounds(fs) {
        assert forall|a: int, i: int| 0 <= a < NUM_SHIPS && 0 <= i < fs[a].ship.spec_len() implies (
        #[trigger] fs[a].spec_cell(i)).0 < BOARD_SIZE && fs[a].spec_cell(i).1 < BOARD_SIZE by {
            assert(fs[a].spec_in_bounds());
            lemma_in_bounds_iff_cells_on_board(fs[a]);
        }
    }
    if cells_on_board {
        assert forall|a: int| 0 <= a < fs.len() implies #[trigger] fs[a].spec_in_bounds() by {
            lemma_in_bounds_iff_cells_on_board(fs[a]);
            assert forall|i: int| 0 <= i < fs[a].ship.spec_len() implies (#[trigger] fs[a].spec_cell(i)).0
                < BOARD_SIZE && fs[a].spec_cell(i).1 < BOARD_SIZE by {
                assert(0 <= a < NUM_SHIPS && 0 <= i < fs[a].ship.spec_len());
            }
        }
    }
}

} // verus!
