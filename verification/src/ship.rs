//! Ships, placements and shots.

use vstd::prelude::*;

verus! {

/// Standard 10x10 Battleship board.
pub const BOARD_SIZE: u8 = 10;

/// Number of ships in a standard fleet.
pub const NUM_SHIPS: usize = 5;

/// Total occupied cells across the whole fleet (5+4+3+3+2).
pub const TOTAL_SHIP_CELLS: usize = 17;

/// The five standard ships. The variant order is also the canonical order
/// used when building the commitment preimage.
#[derive(Clone, Copy, PartialEq, Eq, Debug, PartialOrd, Ord, Structural)]
pub enum ShipKind {
    Carrier,
    Battleship,
    Cruiser,
    Submarine,
    Destroyer,
}

impl ShipKind {
    /// Number of cells the ship occupies.
    pub open spec fn spec_len(self) -> u8 {
        match self {
            ShipKind::Carrier => 5,
            ShipKind::Battleship => 4,
            ShipKind::Cruiser => 3,
            ShipKind::Submarine => 3,
            ShipKind::Destroyer => 2,
        }
    }

    /// Stable numeric id of the ship kind.
    pub open spec fn spec_id(self) -> u8 {
        match self {
            ShipKind::Carrier => 0,
            ShipKind::Battleship => 1,
            ShipKind::Cruiser => 2,
            ShipKind::Submarine => 3,
            ShipKind::Destroyer => 4,
        }
    }

    /// Length (number of cells) of the ship.
    pub fn len(self) -> (n: u8)
        ensures
            n == self.spec_len(),
    {
        match self {
            ShipKind::Carrier => 5,
            ShipKind::Battleship => 4,
            ShipKind::Cruiser => 3,
            ShipKind::Submarine => 3,
            ShipKind::Destroyer => 2,
        }
    }

    /// Stable numeric id used for canonical encoding and sorting.
    pub fn id(self) -> (n: u8)
        ensures
            n == self.spec_id(),
    {
        match self {
            ShipKind::Carrier => 0,
            ShipKind::Battleship => 1,
            ShipKind::Cruiser => 2,
            ShipKind::Submarine => 3,
            ShipKind::Destroyer => 4,
        }
    }
}

/// The kind whose id is `id`, if there is one.
pub open spec fn kind_of_id(id: u8) -> Option<ShipKind> {
    if id == 0 {
        Some(ShipKind::Carrier)
    } else if id == 1 {
        Some(ShipKind::Battleship)
    } else if id == 2 {
        Some(ShipKind::Cruiser)
    } else if id == 3 {
        Some(ShipKind::Submarine)
    } else if id == 4 {
        Some(ShipKind::Destroyer)
    } else {
        None
    }
}

/// Law: `from_id` inverts `id`: every kind is found again from its id, and
/// an id that names a kind is that kind's id.
pub proof fn lemma_id_roundtrip(k: ShipKind, n: u8)
    ensures
        kind_of_id(k.spec_id()) == Some(k),
        kind_of_id(n) matches Some(j) ==> j.spec_id() == n,
        kind_of_id(n) is Some <==> n < 5,
{
}

impl ShipKind {
    /// Inverse of [`ShipKind::id`].
    pub fn from_id(id: u8) -> (k: Option<ShipKind>)
        ensures
            k == kind_of_id(id),
    {
        match id {
            0 => Some(ShipKind::Carrier),
            1 => Some(ShipKind::Battleship),
            2 => Some(ShipKind::Cruiser),
            3 => Some(ShipKind::Submarine),
            4 => Some(ShipKind::Destroyer),
            _ => None,
        }
    }

    /// The full standard fleet, one of each kind, in id order.
    pub fn all() -> (kinds: [ShipKind; NUM_SHIPS])
        ensures
            forall|i: int| 0 <= i < NUM_SHIPS ==> (#[trigger] kinds@[i]).spec_id() == i,
    {
        [
            ShipKind::Carrier,
            ShipKind::Battleship,
            ShipKind::Cruiser,
            ShipKind::Submarine,
            ShipKind::Destroyer,
        ]
    }
}


/// How a ship extends from its top-left cell.
#[derive(Clone, Copy, PartialEq, Eq, Debug, Structural)]
pub enum Orientation {
    Horizontal,
    Vertical,
}

/// `a + i` on a byte, wrapping around at 256.
pub open spec fn wrap_add(a: u8, i: int) -> u8 {
    ((a + i) % 256) as u8
}

/// A single ship placed on the board by its top-left cell and orientation.
#[derive(Clone, Copy, PartialEq, Eq, Debug, Structural)]
pub struct Placement {
    pub ship: ShipKind,
    pub row: u8,
    pub col: u8,
    pub orientation: Orientation,
}

impl Placement {
    /// The `i`-th cell of the ship, with coordinates that wrap around at 256.
    pub open spec fn spec_cell(self, i: int) -> (u8, u8) {
        match self.orientation {
            Orientation::Horizontal => (self.row, wrap_add(self.col, i)),
            Orientation::Vertical => (wrap_add(self.row, i), self.col),
        }
    }

    /// Does some cell of the ship lie at `(r, c)`?
    pub open spec fn covers(self, r: u8, c: u8) -> bool {
        exists|i: int| 0 <= i < self.ship.spec_len() && #[trigger] self.spec_cell(i) == (r, c)
    }

    /// The cells of the ship, in order from its top-left cell.
    pub open spec fn spec_cells(self) -> Seq<(u8, u8)> {
        Seq::new(self.ship.spec_len() as nat, |i: int| self.spec_cell(i))
    }

    /// Every cell of the ship lies inside the board.
    pub open spec fn spec_in_bounds(self) -> bool {
        &&& self.row < BOARD_SIZE
        &&& self.col < BOARD_SIZE
        &&& match self.orientation {
            Orientation::Horizontal => self.col + self.ship.spec_len() <= BOARD_SIZE,
            Orientation::Vertical => self.row + self.ship.spec_len() <= BOARD_SIZE,
        }
    }

    /// The i-th cell of this ship (0 <= i < ship.len()).
    ///
    /// Uses wrapping arithmetic so that out-of-bounds placements cannot
    /// panic; such placements are rejected by [`Placement::in_bounds`].
    #[inline]
    pub fn cell(&self, i: u8) -> (c: (u8, u8))
        ensures
            c == self.spec_cell(i as int),
    {
        match self.orientation {
            Orientation::Horizontal => (self.row, self.col.wrapping_add(i)),
            Orientation::Vertical => (self.row.wrapping_add(i), self.col),
        }
    }

    /// The cells this ship occupies, in order.
    pub fn cells(&self) -> (v: Vec<(u8, u8)>)
        ensures
            v@ == self.spec_cells(),
    {
        let n = self.ship.len();
        let mut v: Vec<(u8, u8)> = Vec::new();
        let mut i: u8 = 0;
        while i < n
            invariant
                n == self.ship.spec_len(),
                i <= n,
                v@ == self.spec_cells().take(i as int),
            decreases n - i,
        {
            v.push(self.cell(i));
            i = i + 1;
            assert(v@ =~= self.spec_cells().take(i as int));
        }
        assert(v@ =~= self.spec_cells());
        v
    }

    /// True iff every cell of the ship lies inside the board.
    pub fn in_bounds(&self) -> (b: bool)
        ensures
            b == self.spec_in_bounds(),
    {
        if self.row >= BOARD_SIZE || self.col >= BOARD_SIZE {
            return false;
        }
        let n = self.ship.len() as u16;
        match self.orientation {
            Orientation::Horizontal => self.col as u16 + n <= BOARD_SIZE as u16,
            Orientation::Vertical => self.row as u16 + n <= BOARD_SIZE as u16,
        }
    }
}

/// Law: a placement is in bounds exactly when each of its cells has a row
/// and a column inside the board.
pub proof fn lemma_in_bounds_iff_cells_on_board(p: Placement)
    ensures
        p.spec_in_bounds() <==> forall|i: int|
            0 <= i < p.ship.spec_len() ==> (#[trigger] p.spec_cell(i)).0 < BOARD_SIZE && p.spec_cell(i).1
                < BOARD_SIZE,
{
    let n = p.ship.spec_len() as int;
    if p.spec_in_bounds() {
        assert forall|i: int| 0 <= i < n implies (#[trigger] p.spec_cell(i)).0 < BOARD_SIZE
            && p.spec_cell(i).1 < BOARD_SIZE by {
            match p.orientation {
                Orientation::Horizontal => {
                    assert(wrap_add(p.col, i) == p.col + i);
                },
                Orientation::Vertical => {
                    assert(wrap_add(p.row, i) == p.row + i);
                },
            }
        }
    }
    if forall|i: int|
        0 <= i < n ==> (#[trigger] p.spec_cell(i)).0 < BOARD_SIZE && p.spec_cell(i).1 < BOARD_SIZE {
        let first = p.spec_cell(0);
        let last = p.spec_cell(n - 1);
        assert(first.0 < BOARD_SIZE && first.1 < BOARD_SIZE);
        assert(last.0 < BOARD_SIZE && last.1 < BOARD_SIZE);
        match p.orientation {
            Orientation::Horizontal => {
                assert(wrap_add(p.col, 0) == p.col);
                assert(wrap_add(p.col, n - 1) == p.col + n - 1);
            },
            Orientation::Vertical => {
                assert(wrap_add(p.row, 0) == p.row);
                assert(wrap_add(p.row, n - 1) == p.row + n - 1);
            },
        }
    }
}

/// A coordinate fired upon.
#[derive(Clone, Copy, PartialEq, Eq, Debug, Structural)]
pub struct Shot {
    pub row: u8,
    pub col: u8,
}

impl Shot {
    pub fn new(row: u8, col: u8) -> (s: Self)
        ensures
            s.row == row,
            s.col == col,
    {
        Shot { row, col }
    }
}

} // verus!
