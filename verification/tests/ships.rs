use zk_battleship::fleet::Fleet;
use zk_battleship::ship::{Orientation, Placement, ShipKind, Shot, NUM_SHIPS};

#[test]
fn ship_kinds_have_lengths_and_ids() {
    let kinds = ShipKind::all();
    assert_eq!(kinds.len(), NUM_SHIPS);
    let lens: Vec<u8> = kinds.iter().map(|k| k.len()).collect();
    assert_eq!(lens, vec![5, 4, 3, 3, 2]);
    for (i, k) in kinds.iter().enumerate() {
        assert_eq!(k.id() as usize, i);
        assert_eq!(ShipKind::from_id(k.id()), Some(*k));
    }
    assert_eq!(ShipKind::from_id(5), None);
    assert_eq!(ShipKind::from_id(255), None);
}

#[test]
fn cells_wrap_around_at_256() {
    let p = Placement { ship: ShipKind::Battleship, row: 3, col: 254, orientation: Orientation::Horizontal };
    assert_eq!(p.cells(), vec![(3, 254), (3, 255), (3, 0), (3, 1)]);
    assert!(!p.in_bounds());
    let v = Placement { ship: ShipKind::Destroyer, row: 9, col: 2, orientation: Orientation::Vertical };
    assert_eq!(v.cell(1), (10, 2));
    assert!(!v.in_bounds());
    let ok = Placement { ship: ShipKind::Destroyer, row: 8, col: 9, orientation: Orientation::Vertical };
    assert!(ok.in_bounds());
    assert_eq!(Shot::new(3, 4), Shot { row: 3, col: 4 });
}

#[test]
fn ship_at_sums_ids_of_overlapping_ships() {
    // Carrier (id 0) and Battleship (id 1) both cover (0, 0): the selector
    // sum is 1 + 2 = 3, which reads as id 2.
    let f = Fleet {
        placements: [
            Placement { ship: ShipKind::Carrier, row: 0, col: 0, orientation: Orientation::Horizontal },
            Placement { ship: ShipKind::Battleship, row: 0, col: 0, orientation: Orientation::Vertical },
            Placement { ship: ShipKind::Cruiser, row: 4, col: 0, orientation: Orientation::Horizontal },
            Placement { ship: ShipKind::Submarine, row: 6, col: 0, orientation: Orientation::Horizontal },
            Placement { ship: ShipKind::Destroyer, row: 8, col: 0, orientation: Orientation::Horizontal },
        ],
    };
    assert!(!f.is_valid());
    assert_eq!(f.ship_at(Shot::new(0, 0)), Some(ShipKind::Cruiser));
    assert_eq!(f.ship_at(Shot::new(0, 1)), Some(ShipKind::Carrier));
    assert_eq!(f.ship_at(Shot::new(1, 0)), Some(ShipKind::Battleship));
}

#[test]
fn touching_ships_are_legal() {
    let f = Fleet {
        placements: [
            Placement { ship: ShipKind::Carrier, row: 0, col: 0, orientation: Orientation::Horizontal },
            Placement { ship: ShipKind::Battleship, row: 1, col: 0, orientation: Orientation::Horizontal },
            Placement { ship: ShipKind::Cruiser, row: 2, col: 0, orientation: Orientation::Horizontal },
            Placement { ship: ShipKind::Submarine, row: 3, col: 0, orientation: Orientation::Horizontal },
            Placement { ship: ShipKind::Destroyer, row: 4, col: 0, orientation: Orientation::Horizontal },
        ],
    };
    assert!(f.is_valid());
}

#[test]
fn sinking_uses_history_and_the_shot() {
    let f = Fleet {
        placements: [
            Placement { ship: ShipKind::Carrier, row: 0, col: 0, orientation: Orientation::Vertical },
            Placement { ship: ShipKind::Battleship, row: 0, col: 1, orientation: Orientation::Vertical },
            Placement { ship: ShipKind::Cruiser, row: 0, col: 2, orientation: Orientation::Vertical },
            Placement { ship: ShipKind::Submarine, row: 0, col: 3, orientation: Orientation::Vertical },
            Placement { ship: ShipKind::Destroyer, row: 0, col: 4, orientation: Orientation::Vertical },
        ],
    };
    assert!(f.is_valid());
    let history = vec![Shot::new(0, 2), Shot::new(2, 2)];
    assert_eq!(f.ship_sunk(Shot::new(1, 2), &history), Some(ShipKind::Cruiser));
    assert_eq!(f.ship_sunk(Shot::new(1, 2), &history[..1]), None);
    // A shot into water completes nothing even if the history covers a ship.
    assert_eq!(f.ship_sunk(Shot::new(9, 9), &[Shot::new(0, 4), Shot::new(1, 4)]), None);
    assert!(!f.all_sunk(&history));
}

#[test]
fn defeat_stays_after_more_shots() {
    let f = Fleet {
        placements: [
            Placement { ship: ShipKind::Carrier, row: 0, col: 0, orientation: Orientation::Horizontal },
            Placement { ship: ShipKind::Battleship, row: 2, col: 0, orientation: Orientation::Horizontal },
            Placement { ship: ShipKind::Cruiser, row: 4, col: 0, orientation: Orientation::Horizontal },
            Placement { ship: ShipKind::Submarine, row: 6, col: 0, orientation: Orientation::Horizontal },
            Placement { ship: ShipKind::Destroyer, row: 8, col: 0, orientation: Orientation::Horizontal },
        ],
    };
    let mut history: Vec<Shot> = Vec::new();
    for p in f.placements.iter() {
        for (r, c) in p.cells() {
            history.push(Shot::new(r, c));
        }
    }
    assert!(f.all_sunk(&history));
    history.push(Shot::new(9, 9));
    history.push(Shot::new(0, 0));
    assert!(f.all_sunk(&history));
    // Order does not matter either.
    history.reverse();
    assert!(f.all_sunk(&history));
}
