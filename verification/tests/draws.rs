use rand::rngs::StdRng;
use rand::SeedableRng;
use zk_battleship::board_gen::{place_candidate, random_fleet};
use zk_battleship::game::{hunt_pick, Gunner};
use zk_battleship::requests::cors_header_pairs;
use zk_battleship::ship::{Orientation, Placement, ShipKind, Shot};

#[test]
fn place_candidate_takes_fitting_candidates_only() {
    let occupied: Vec<(u8, u8)> = vec![(0, 0), (0, 1), (0, 2)];
    assert_eq!(
        place_candidate(ShipKind::Destroyer, true, 1, 0, &occupied),
        Some(Placement { ship: ShipKind::Destroyer, row: 1, col: 0, orientation: Orientation::Horizontal })
    );
    // Vertical from (0,3) is free; horizontal from (0,1) clashes.
    assert_eq!(
        place_candidate(ShipKind::Cruiser, false, 0, 3, &occupied),
        Some(Placement { ship: ShipKind::Cruiser, row: 0, col: 3, orientation: Orientation::Vertical })
    );
    assert_eq!(place_candidate(ShipKind::Cruiser, true, 0, 1, &occupied), None);
    // Off the board.
    assert_eq!(place_candidate(ShipKind::Carrier, true, 5, 6, &occupied), None);
    assert_eq!(place_candidate(ShipKind::Carrier, false, 6, 5, &[].to_vec()), None);
    assert!(place_candidate(ShipKind::Carrier, false, 5, 5, &Vec::new()).is_some());
}

#[test]
fn random_fleet_lists_ships_in_id_order() {
    let mut rng = StdRng::seed_from_u64(5);
    for _ in 0..20 {
        let f = random_fleet(&mut rng);
        assert!(f.is_valid());
        for (i, p) in f.placements.iter().enumerate() {
            assert_eq!(p.ship.id() as usize, i);
        }
    }
}

#[test]
fn random_fleet_is_reproducible_from_a_seed() {
    let a = random_fleet(&mut StdRng::seed_from_u64(77));
    let b = random_fleet(&mut StdRng::seed_from_u64(77));
    assert_eq!(a, b);
}

#[test]
fn hunt_pick_counts_untried_cells_in_row_major_order() {
    let tried = vec![Shot::new(0, 0), Shot::new(0, 2)];
    assert_eq!(hunt_pick(&tried, 0), Shot::new(0, 1));
    assert_eq!(hunt_pick(&tried, 1), Shot::new(0, 3));
    assert_eq!(hunt_pick(&tried, 97), Shot::new(9, 9));
    assert_eq!(hunt_pick(&Vec::new(), 42), Shot::new(4, 2));
}

#[test]
fn queued_shot_draws_nothing() {
    let mut rng = StdRng::seed_from_u64(3);
    let mut g = Gunner::new();
    g.record(Shot::new(4, 4), true);
    let before = rng.clone();
    assert_eq!(g.next(&mut rng), Shot::new(4, 5));
    assert_eq!(rng, before);
}

#[test]
fn cors_headers_only_for_allowed_origins() {
    let allowed = vec!["http://localhost:3000".to_string(), "http://127.0.0.1:3000".to_string()];
    let base = vec![
        ("Content-Type".to_string(), "application/json".to_string()),
        ("Vary".to_string(), "Origin".to_string()),
    ];
    assert_eq!(cors_header_pairs(None, &allowed), base);
    assert_eq!(cors_header_pairs(Some("http://evil.example"), &allowed), base);
    let mut full = base.clone();
    full.push(("Access-Control-Allow-Origin".to_string(), "http://127.0.0.1:3000".to_string()));
    full.push(("Access-Control-Allow-Methods".to_string(), "POST, GET, OPTIONS".to_string()));
    full.push(("Access-Control-Allow-Headers".to_string(), "Content-Type".to_string()));
    full.push(("Access-Control-Allow-Private-Network".to_string(), "true".to_string()));
    assert_eq!(cors_header_pairs(Some("http://127.0.0.1:3000"), &allowed), full);
    assert_eq!(cors_header_pairs(Some("http://127.0.0.1:3000"), &Vec::new()), base);
}
