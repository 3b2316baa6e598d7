use zk_battleship::fleet::Fleet;
use zk_battleship::ship::{Orientation, Placement, ShipKind, Shot, BOARD_SIZE, TOTAL_SHIP_CELLS};

/// A simple valid fleet: every ship horizontal on its own row.
fn valid_fleet() -> Fleet {
    Fleet {
        placements: [
            Placement { ship: ShipKind::Carrier, row: 0, col: 0, orientation: Orientation::Horizontal },
            Placement { ship: ShipKind::Battleship, row: 2, col: 0, orientation: Orientation::Horizontal },
            Placement { ship: ShipKind::Cruiser, row: 4, col: 0, orientation: Orientation::Horizontal },
            Placement { ship: ShipKind::Submarine, row: 6, col: 0, orientation: Orientation::Horizontal },
            Placement { ship: ShipKind::Destroyer, row: 8, col: 0, orientation: Orientation::Horizontal },
        ],
    }
}

#[test]
fn valid_fleet_passes() {
    assert!(valid_fleet().is_valid());
}

#[test]
fn cells_and_bounds() {
    let p = Placement { ship: ShipKind::Cruiser, row: 4, col: 0, orientation: Orientation::Horizontal };
    assert_eq!(p.cells(), vec![(4, 0), (4, 1), (4, 2)]);
    assert!(p.in_bounds());

    // Carrier(5) starting at col 7 would need cols 7..11 -> off board.
    let off = Placement { ship: ShipKind::Carrier, row: 0, col: 7, orientation: Orientation::Horizontal };
    assert!(!off.in_bounds());
}

#[test]
fn wrong_composition_rejected() {
    // Replace the Destroyer with a second Carrier -> not one-of-each.
    let mut f = valid_fleet();
    f.placements[4] = Placement { ship: ShipKind::Carrier, row: 8, col: 0, orientation: Orientation::Horizontal };
    assert!(!f.is_valid());
}

#[test]
fn overlap_rejected() {
    // Put the Destroyer on top of the Carrier's cells.
    let mut f = valid_fleet();
    f.placements[4] = Placement { ship: ShipKind::Destroyer, row: 0, col: 0, orientation: Orientation::Horizontal };
    assert!(!f.is_valid());
}

#[test]
fn out_of_bounds_rejected() {
    let mut f = valid_fleet();
    f.placements[0] = Placement { ship: ShipKind::Carrier, row: 0, col: 8, orientation: Orientation::Horizontal };
    assert!(!f.is_valid());
}

#[test]
fn extreme_coordinates_do_not_panic() {
    // Wrapping cell arithmetic must never panic, and the fleet must be
    // rejected by the bounds check.
    let mut f = valid_fleet();
    f.placements[0] = Placement { ship: ShipKind::Carrier, row: 255, col: 255, orientation: Orientation::Vertical };
    assert!(!f.is_valid());
}

#[test]
fn hit_and_miss() {
    let f = valid_fleet();
    assert!(f.occupies(Shot::new(0, 0))); // Carrier
    assert!(f.occupies(Shot::new(8, 1))); // Destroyer tail
    assert!(!f.occupies(Shot::new(9, 9))); // empty water
    assert_eq!(f.ship_at(Shot::new(4, 1)), Some(ShipKind::Cruiser));
    assert_eq!(f.ship_at(Shot::new(9, 9)), None);
}

#[test]
fn sunk_detection() {
    let f = valid_fleet();
    // Destroyer occupies (8,0) and (8,1).
    // First hit: not sunk yet.
    assert_eq!(f.ship_sunk(Shot::new(8, 0), &[]), None);
    // Second hit completes it.
    let history = vec![Shot::new(8, 0)];
    assert_eq!(f.ship_sunk(Shot::new(8, 1), &history), Some(ShipKind::Destroyer));
    // Hitting empty water never sinks anything.
    assert_eq!(f.ship_sunk(Shot::new(9, 9), &history), None);
}

#[test]
fn win_requires_all_cells() {
    let f = valid_fleet();
    let mut history: Vec<Shot> = Vec::new();
    for p in f.placements.iter() {
        for (r, c) in p.cells() {
            history.push(Shot::new(r, c));
        }
    }
    assert_eq!(history.len(), TOTAL_SHIP_CELLS);
    assert!(f.all_sunk(&history));
    // Drop one cell -> not won.
    history.pop();
    assert!(!f.all_sunk(&history));
}

#[test]
fn defeat_is_exactly_the_last_cell() {
    // all_sunk(history + shot) flips to true exactly when the final ship
    // cell is hit.
    let f = valid_fleet();
    let mut all_cells: Vec<Shot> = Vec::new();
    for p in f.placements.iter() {
        for (r, c) in p.cells() {
            all_cells.push(Shot::new(r, c));
        }
    }
    let (last, prior) = all_cells.split_last().unwrap();
    let mut with_last = prior.to_vec();
    assert!(!f.all_sunk(&with_last)); // 16 of 17 cells: not defeated
    with_last.push(*last);
    assert!(f.all_sunk(&with_last)); // 17 of 17: defeated
}

#[test]
fn commitment_preimage_is_order_independent() {
    // The same board in a different listing order must produce the SAME
    // preimage (so the commitment is well-defined).
    let salt = [7u8; 32];
    let f1 = valid_fleet();
    let mut f2 = valid_fleet();
    f2.placements.reverse();
    assert_eq!(f1.digest_preimage(&salt), f2.digest_preimage(&salt));
}

#[test]
fn different_boards_have_different_preimages() {
    // Two genuinely different boards yield different preimages, so (modulo
    // SHA-256 collisions) different commitments.
    let salt = [7u8; 32];
    let f1 = valid_fleet();
    let mut f2 = valid_fleet();
    f2.placements[0] = Placement { ship: ShipKind::Carrier, row: 0, col: 1, orientation: Orientation::Horizontal };
    assert_ne!(f1.digest_preimage(&salt), f2.digest_preimage(&salt));
}

#[test]
fn salt_changes_preimage() {
    // The salt actually feeds the hash.
    let f = valid_fleet();
    assert_ne!(f.digest_preimage(&[0u8; 32]), f.digest_preimage(&[1u8; 32]));
}

// -----------------------------------------------------------------
// Equivalence of the fixed-shape implementations with naive references
// -----------------------------------------------------------------

/// Tiny deterministic RNG (xorshift64*).
struct TestRng(u64);
impl TestRng {
    fn next(&mut self) -> u64 {
        let mut x = self.0;
        x ^= x >> 12;
        x ^= x << 25;
        x ^= x >> 27;
        self.0 = x;
        x.wrapping_mul(0x2545F4914F6CDD1D)
    }
    fn below(&mut self, n: u64) -> u64 {
        self.next() % n
    }
}

fn random_valid_fleet(rng: &mut TestRng) -> Fleet {
    'restart: loop {
        let mut occupied: Vec<(u8, u8)> = Vec::new();
        let mut placements: Vec<Placement> = Vec::new();
        for ship in ShipKind::all() {
            let mut placed = false;
            for _ in 0..100 {
                let orientation = if rng.below(2) == 0 { Orientation::Horizontal } else { Orientation::Vertical };
                let p = Placement {
                    ship,
                    row: rng.below(BOARD_SIZE as u64) as u8,
                    col: rng.below(BOARD_SIZE as u64) as u8,
                    orientation,
                };
                if !p.in_bounds() || p.cells().iter().any(|c| occupied.contains(c)) {
                    continue;
                }
                occupied.extend(p.cells());
                placements.push(p);
                placed = true;
                break;
            }
            if !placed {
                continue 'restart;
            }
        }
        return Fleet { placements: placements.try_into().unwrap() };
    }
}

/// Naive reference implementations (early exits allowed).
fn ref_occupies(f: &Fleet, s: Shot) -> bool {
    f.placements.iter().any(|p| p.cells().contains(&(s.row, s.col)))
}
fn ref_ship_sunk(f: &Fleet, s: Shot, history: &[Shot]) -> Option<ShipKind> {
    let p = f.placements.iter().find(|p| p.cells().contains(&(s.row, s.col)))?;
    let all_hit = p.cells().iter().all(|&(r, c)| {
        (r == s.row && c == s.col) || history.iter().any(|h| h.row == r && h.col == c)
    });
    all_hit.then_some(p.ship)
}
fn ref_all_sunk(f: &Fleet, history: &[Shot]) -> bool {
    f.placements
        .iter()
        .all(|p| p.cells().iter().all(|&(r, c)| history.iter().any(|h| h.row == r && h.col == c)))
}

#[test]
fn fixed_shape_logic_matches_reference() {
    let mut rng = TestRng(0x5EEDu64);
    for _ in 0..25 {
        let f = random_valid_fleet(&mut rng);
        // A random public history of ~30 distinct shots.
        let mut history: Vec<Shot> = Vec::new();
        while history.len() < 30 {
            let s = Shot::new(rng.below(10) as u8, rng.below(10) as u8);
            if !history.contains(&s) {
                history.push(s);
            }
        }
        for r in 0..BOARD_SIZE {
            for c in 0..BOARD_SIZE {
                let s = Shot::new(r, c);
                assert_eq!(f.occupies(s), ref_occupies(&f, s));
                assert_eq!(f.ship_sunk(s, &history), ref_ship_sunk(&f, s, &history));
            }
        }
        assert_eq!(f.all_sunk(&history), ref_all_sunk(&f, &history));
    }
}
