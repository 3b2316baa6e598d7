use rand::rngs::StdRng;
use rand::SeedableRng;
use zk_battleship::fleet::Fleet;
use zk_battleship::game::{Gunner, Player};
use zk_battleship::relay::{room_code_ok, Room};
use zk_battleship::requests::{
    check_coords, parse_orientation, parse_ship, resolve_fleet, ship_name, PlacementRequest, RequestError,
};
use zk_battleship::session::{Game, MoveError, PvpSession};
use zk_battleship::ship::{Orientation, Placement, ShipKind, Shot};

fn req(ship: &str, row: u8, col: u8, orientation: &str) -> PlacementRequest {
    PlacementRequest { ship: ship.to_string(), row, col, orientation: orientation.to_string() }
}

fn rows_request() -> Vec<PlacementRequest> {
    vec![
        req("carrier", 0, 0, "horizontal"),
        req("Battleship", 2, 0, "H"),
        req("CRUISER", 4, 0, "h"),
        req("submarine", 6, 0, "Horizontal"),
        req("destroyer", 8, 0, "v"),
    ]
}

#[test]
fn coordinates_must_be_on_board() {
    assert_eq!(check_coords(9, 9), Ok(Shot::new(9, 9)));
    assert_eq!(check_coords(10, 0), Err(RequestError::BadCoordinates));
    assert_eq!(check_coords(0, 200), Err(RequestError::BadCoordinates));
    assert_eq!(RequestError::BadCoordinates.status(), 400);
}

#[test]
fn names_parse_ignoring_case() {
    assert_eq!(parse_ship("CaRrIeR"), Some(ShipKind::Carrier));
    assert_eq!(parse_ship("destroyer"), Some(ShipKind::Destroyer));
    assert_eq!(parse_ship("destroyers"), None);
    assert_eq!(parse_ship(""), None);
    assert_eq!(parse_orientation("V"), Some(Orientation::Vertical));
    assert_eq!(parse_orientation("Horizontal"), Some(Orientation::Horizontal));
    assert_eq!(parse_orientation("diagonal"), None);
    assert_eq!(ship_name(ShipKind::Submarine), "Submarine");
    assert_eq!(ship_name(ShipKind::Battleship), "Battleship");
}

#[test]
fn resolve_fleet_builds_requested_fleet() {
    let mut rng = StdRng::seed_from_u64(1);
    let f = resolve_fleet(Some(rows_request()), &mut rng).unwrap();
    assert_eq!(
        f.placements[4],
        Placement { ship: ShipKind::Destroyer, row: 8, col: 0, orientation: Orientation::Vertical }
    );
    assert!(f.is_valid());
    assert!(resolve_fleet(None, &mut rng).unwrap().is_valid());
}

#[test]
fn resolve_fleet_reports_each_error() {
    let mut rng = StdRng::seed_from_u64(1);
    let mut short = rows_request();
    short.pop();
    assert_eq!(resolve_fleet(Some(short), &mut rng).err(), Some(RequestError::WrongPlacementCount));

    let mut bad_ship = rows_request();
    bad_ship[2].ship = "canoe".to_string();
    bad_ship[3].orientation = "up".to_string();
    assert_eq!(resolve_fleet(Some(bad_ship), &mut rng).err(), Some(RequestError::UnknownShip { index: 2 }));

    let mut bad_orientation = rows_request();
    bad_orientation[1].orientation = "up".to_string();
    assert_eq!(
        resolve_fleet(Some(bad_orientation), &mut rng).err(),
        Some(RequestError::UnknownOrientation { index: 1 })
    );

    let mut overlap = rows_request();
    overlap[4] = req("destroyer", 0, 0, "h");
    assert_eq!(resolve_fleet(Some(overlap), &mut rng).err(), Some(RequestError::IllegalFleet));
}

#[test]
fn gunner_sweeps_neighbours_after_hit() {
    let mut rng = StdRng::seed_from_u64(7);
    let mut g = Gunner::new();
    g.record(Shot::new(0, 0), true);
    // Neighbours of (0,0) on the board: (1,0) then (0,1); the last queued
    // is fired first.
    assert_eq!(g.next(&mut rng), Shot::new(0, 1));
    g.record(Shot::new(0, 1), false);
    assert_eq!(g.next(&mut rng), Shot::new(1, 0));
    g.record(Shot::new(1, 0), false);
    // Queue exhausted: random hunting never repeats a tried cell.
    let mut seen = vec![Shot::new(0, 0), Shot::new(0, 1), Shot::new(1, 0)];
    for _ in 0..97 {
        let s = g.next(&mut rng);
        assert!(s.row < 10 && s.col < 10);
        assert!(!seen.contains(&s));
        seen.push(s);
        g.record(s, false);
    }
    assert_eq!(seen.len(), 100);
}

#[test]
fn gunner_skips_queued_cells_already_tried() {
    let mut rng = StdRng::seed_from_u64(8);
    let mut g = Gunner::new();
    g.record(Shot::new(5, 5), true);
    g.record(Shot::new(5, 6), false);
    // Queue holds (4,5), (6,5), (5,4), (5,6); (5,6) was tried since.
    assert_eq!(g.next(&mut rng), Shot::new(5, 4));
}

#[test]
fn gunner_reads_coordinates_as_signed_bytes() {
    let mut rng = StdRng::seed_from_u64(9);
    let mut g = Gunner::new();
    // Row 255 reads as -1, so its lower neighbour is row 0.
    g.record(Shot::new(255, 3), true);
    assert_eq!(g.next(&mut rng), Shot::new(0, 3));
}

fn rows_fleet() -> Fleet {
    let mut rng = StdRng::seed_from_u64(1);
    resolve_fleet(Some(rows_request()), &mut rng).unwrap()
}

#[test]
fn game_against_computer_flows() {
    let mut rng = StdRng::seed_from_u64(11);
    let ai = Player::new(rows_fleet(), [1u8; 32]);
    let mut game = Game::new(ai, rows_fleet());
    assert_eq!(game.check_fire(10, 1), Err(MoveError::BadCoordinates));
    let shot = game.check_fire(0, 0).unwrap();
    game.record_human_shot(shot, false);
    assert_eq!(game.check_fire(0, 0), Err(MoveError::AlreadyFired));
    assert_eq!(MoveError::AlreadyFired.status(), 400);

    let a = game.ai_turn(&mut rng);
    assert_eq!(a.hit, game.human_fleet.occupies(a.shot));
    assert!(!a.ai_won);
    assert_eq!(game.ai_fired, vec![a.shot]);

    game.record_human_shot(Shot::new(1, 1), true);
    assert!(game.over);
    assert_eq!(game.check_fire(3, 3), Err(MoveError::GameOver));
    assert_eq!(MoveError::GameOver.status(), 409);
}

#[test]
fn computer_wins_by_sinking_every_cell() {
    let mut rng = StdRng::seed_from_u64(12);
    let ai = Player::new(rows_fleet(), [1u8; 32]);
    let mut game = Game::new(ai, rows_fleet());
    let mut turns = 0;
    while !game.over {
        let a = game.ai_turn(&mut rng);
        turns += 1;
        assert_eq!(a.ai_won, game.over);
    }
    assert!(turns >= 17 && turns <= 100);
    assert!(game.human_fleet.all_sunk(&game.ai_fired));
}

#[test]
fn pvp_session_checks_commitments_and_shots() {
    let me = Player::new(rows_fleet(), [2u8; 32]);
    let own = me.commitment();
    let mut s = PvpSession::new(me);
    assert_eq!(s.expected_commitment(), Err(MoveError::OpponentNotCommitted));
    assert_eq!(MoveError::OpponentNotCommitted.status(), 409);
    assert_eq!(s.accept_opponent_commitment([1u8; 32], [2u8; 32]), Err(MoveError::CommitmentMismatch));
    assert_eq!(s.accept_opponent_commitment(own, own), Err(MoveError::EchoedCommitment));
    assert_eq!(s.opponent_commitment, None);
    assert_eq!(s.accept_opponent_commitment([1u8; 32], [1u8; 32]), Ok(()));
    assert_eq!(s.expected_commitment(), Ok([1u8; 32]));

    assert_eq!(s.check_respond(3, 3), Ok(Shot::new(3, 3)));
    s.me.record_answer(Shot::new(3, 3));
    assert_eq!(s.check_respond(3, 3), Err(MoveError::AlreadyAnswered));
    assert_eq!(MoveError::AlreadyAnswered.status(), 409);
    assert_eq!(s.check_respond(3, 12), Err(MoveError::BadCoordinates));

    s.record_fired(Shot::new(4, 4));
    assert_eq!(s.fired, vec![Shot::new(4, 4)]);
}

#[test]
fn relay_rooms_seat_two_players() {
    let mut room: Room<&str> = Room::new();
    assert_eq!(room.seat("alice"), Some((0, false)));
    assert_eq!(room.seat("bob"), Some((1, true)));
    assert_eq!(room.seat("carol"), None);
    assert_eq!(room.opponent(0), &Some("bob"));
    assert!(!room.leave(0));
    assert_eq!(room.seat("dave"), Some((0, true)));
    assert!(!room.leave(1));
    assert!(room.leave(0));
    assert!(room_code_ok("ROOM1"));
    assert!(!room_code_ok(""));
    assert!(!room_code_ok(&"x".repeat(65)));
    assert!(room_code_ok(&"x".repeat(64)));
}
