use rand::rngs::StdRng;
use rand::SeedableRng;
use zk_battleship::relay::{join_step, room_code_ok, JoinStep};
use zk_battleship::requests::{
    fleet_requests, fleet_ship_cells, request_error_message, resolve_fleet, PlacementRequest, RequestError,
};
use zk_battleship::session::MoveError;
use zk_battleship::text::{allowed_origins, trimmed};

fn req(ship: &str, row: u8, col: u8, orientation: &str) -> PlacementRequest {
    PlacementRequest { ship: ship.to_string(), row, col, orientation: orientation.to_string() }
}

fn rows_request() -> Vec<PlacementRequest> {
    vec![
        req("carrier", 0, 0, "horizontal"),
        req("Battleship", 2, 0, "H"),
        req("CRUISER", 4, 0, "h"),
        req("submarine", 6, 0, "Horizontal"),
        req("destroyer", 8, 0, "v"),
    ]
}

#[test]
fn room_code_length_counts_characters() {
    let wide = "é".repeat(64);
    assert_eq!(wide.len(), 128);
    assert!(room_code_ok(&wide));
    assert!(!room_code_ok(&"é".repeat(65)));
    assert!(room_code_ok("a"));
    assert!(!room_code_ok(""));
}

#[test]
fn join_step_decides_first_message() {
    assert!(matches!(join_step("hello", Some("ROOM")), JoinStep::NotJoin));
    assert!(matches!(join_step("Join", Some("ROOM")), JoinStep::NotJoin));
    assert!(matches!(join_step("join", None), JoinStep::BadRoomCode));
    assert!(matches!(join_step("join", Some("   \t")), JoinStep::BadRoomCode));
    assert!(matches!(join_step("join", Some(&"x".repeat(65))), JoinStep::BadRoomCode));
    match join_step("join", Some("  ROOM1 \n")) {
        JoinStep::Join(code) => assert_eq!(code, "ROOM1"),
        _ => panic!("expected a join"),
    }
    let long = format!(" {} ", "ß".repeat(64));
    match join_step("join", Some(&long)) {
        JoinStep::Join(code) => assert_eq!(code, "ß".repeat(64)),
        _ => panic!("expected a join"),
    }
}

#[test]
fn trimmed_drops_outer_white_space() {
    assert_eq!(trimmed("  a b \t\n"), "a b");
    assert_eq!(trimmed("\u{3000}x\u{a0}"), "x");
    assert_eq!(trimmed("   "), "");
    assert_eq!(trimmed(""), "");
}

#[test]
fn allowed_origins_extend_the_local_ui() {
    assert_eq!(allowed_origins(None), vec!["http://localhost:3000", "http://127.0.0.1:3000"]);
    assert_eq!(
        allowed_origins(Some(" https://a.example/ , ,https://b.example//,  ")),
        vec!["http://localhost:3000", "http://127.0.0.1:3000", "https://a.example", "https://b.example"]
    );
    assert_eq!(allowed_origins(Some("")), vec!["http://localhost:3000", "http://127.0.0.1:3000"]);
    assert_eq!(allowed_origins(Some("/")), vec!["http://localhost:3000", "http://127.0.0.1:3000"]);
}

#[test]
fn request_errors_have_messages() {
    let reqs = vec![req("Tugboat", 0, 0, "H"), req("carrier", 0, 0, "DIAGONAL")];
    assert_eq!(request_error_message(RequestError::BadCoordinates, &reqs), "coordinates must be 0..9");
    assert_eq!(request_error_message(RequestError::WrongPlacementCount, &reqs), "expected 5 placements");
    assert_eq!(
        request_error_message(RequestError::UnknownShip { index: 0 }, &reqs),
        "unknown ship `Tugboat`"
    );
    assert_eq!(
        request_error_message(RequestError::UnknownOrientation { index: 1 }, &reqs),
        "unknown orientation `diagonal`"
    );
    assert_eq!(
        request_error_message(RequestError::IllegalFleet, &reqs),
        "illegal fleet: need one of each ship, fully on board, no overlaps"
    );
}

#[test]
fn move_errors_have_messages() {
    assert_eq!(MoveError::GameOver.message(), "game is already over");
    assert_eq!(MoveError::BadCoordinates.message(), "coordinates must be 0..9");
    assert_eq!(MoveError::AlreadyFired.message(), "you already fired at that cell");
    assert_eq!(MoveError::AlreadyAnswered.message(), "that cell was already fired at");
    assert_eq!(MoveError::CommitmentMismatch.message(), "commitment does not match its proof");
    assert_eq!(MoveError::EchoedCommitment.message(), "opponent echoed your own commitment");
    assert_eq!(
        MoveError::OpponentNotCommitted.message(),
        "verify the opponent's commitment before verifying their shots"
    );
}

#[test]
fn fleet_descriptions_round_trip() {
    let mut rng = StdRng::seed_from_u64(3);
    let fleet = resolve_fleet(Some(rows_request()), &mut rng).unwrap();
    let described = fleet_requests(&fleet);
    assert_eq!(described.len(), 5);
    assert_eq!(described[0].ship, "Carrier");
    assert_eq!(described[0].orientation, "horizontal");
    assert_eq!(described[4].ship, "Destroyer");
    assert_eq!(described[4].orientation, "vertical");
    assert_eq!((described[4].row, described[4].col), (8, 0));
    let again = resolve_fleet(Some(described), &mut rng).unwrap();
    assert_eq!(again, fleet);

    let cells = fleet_ship_cells(&fleet);
    assert_eq!(cells.len(), 5);
    assert_eq!(cells[0].0, "Carrier");
    assert_eq!(cells[0].1, vec![(0, 0), (0, 1), (0, 2), (0, 3), (0, 4)]);
    assert_eq!(cells[4].0, "Destroyer");
    assert_eq!(cells[4].1, vec![(8, 0), (9, 0)]);
}
