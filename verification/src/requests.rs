//! Checking what a player asks for: coordinates, and a fleet given as named
//! ships and orientations.

use vstd::prelude::*;
use vstd::string::{StrSliceExecFns, StringExecFns};
use rand::rngs::StdRng;
use crate::board_gen::random_fleet;
use crate::fleet::{fleet_is_valid, Fleet};
use crate::ship::{Orientation, Placement, ShipKind, Shot, BOARD_SIZE, NUM_SHIPS};

verus! {

/// What is wrong with a request; each maps to an HTTP status code.
#[derive(Clone, Copy, PartialEq, Eq, Debug, Structural)]
pub enum RequestError {
    /// Coordinates outside the board.
    BadCoordinates,
    /// A fleet given with the wrong number of placements.
    WrongPlacementCount,
    /// The ship name of the placement at this index is not known.
    UnknownShip { index: usize },
    /// The orientation of the placement at this index is not known.
    UnknownOrientation { index: usize },
    /// The fleet breaks the rules: one of each ship, on the board, no overlap.
    IllegalFleet,
}

impl RequestError {
    /// The HTTP status code of the error.
    pub fn status(&self) -> (code: u16)
        ensures
            code == 400,
    {
        400
    }
}

/// The shot at `(row, col)`, if it lies on the board.
pub fn check_coords(row: u8, col: u8) -> (r: Result<Shot, RequestError>)
    ensures
        row < BOARD_SIZE && col < BOARD_SIZE ==> r == Ok::<Shot, RequestError>(Shot { row, col }),
        !(row < BOARD_SIZE && col < BOARD_SIZE) ==> r == Err::<Shot, RequestError>(
            RequestError::BadCoordinates,
        ),
{
    if row >= BOARD_SIZE || col >= BOARD_SIZE {
        return Err(RequestError::BadCoordinates);
    }
    Ok(Shot::new(row, col))
}

/// ASCII upper-case letters turned to lower case; every other character kept.
pub open spec fn lower_char(c: char) -> char {
    if 'A' <= c <= 'Z' {
        ((c as u32) + 32) as char
    } else {
        c
    }
}

/// `s` with ASCII upper-case letters turned to lower case.
pub open spec fn lower(s: Seq<char>) -> Seq<char> {
    Seq::new(s.len(), |i: int| lower_char(s[i]))
}

/// Is `name`, ignoring ASCII case, the (lower-case) word `word`?
fn lower_eq(name: &str, word: &str) -> (b: bool)
    ensures
        b == (lower(name@) == word@),
{
    let n = name.unicode_len();
    if n != word.unicode_len() {
        return false;
    }
    let mut i: usize = 0;
    while i < n
        invariant
            n == name@.len(),
            n == word@.len(),
            i <= n,
            forall|j: int| 0 <= j < i ==> lower_char(name@[j]) == word@[j],
        decreases n - i,
    {
        let c = name.get_char(i);
        let w = word.get_char(i);
        let lc = if 'A' <= c && c <= 'Z' {
            ((c as u8) + 32) as char
        } else {
            c
        };
        if lc != w {
            assert(lower(name@)[i as int] != word@[i as int]);
            return false;
        }
        i = i + 1;
    }
    assert(lower(name@) =~= word@);
    true
}

/// The ship kind that a name stands for, ignoring ASCII case.
pub open spec fn ship_named(name: Seq<char>) -> Option<ShipKind> {
    let l = lower(name);
    if l == "carrier"@ {
        Some(ShipKind::Carrier)
    } else if l == "battleship"@ {
        Some(ShipKind::Battleship)
    } else if l == "cruiser"@ {
        Some(ShipKind::Cruiser)
    } else if l == "submarine"@ {
        Some(ShipKind::Submarine)
    } else if l == "destroyer"@ {
        Some(ShipKind::Destroyer)
    } else {
        None
    }
}

/// The name of a ship kind, as shown to players.
pub open spec fn kind_name(k: ShipKind) -> Seq<char> {
    match k {
        ShipKind::Carrier => "Carrier"@,
        ShipKind::Battleship => "Battleship"@,
        ShipKind::Cruiser => "Cruiser"@,
        ShipKind::Submarine => "Submarine"@,
        ShipKind::Destroyer => "Destroyer"@,
    }
}

/// The name of a ship kind, as shown to players.
pub fn ship_name(k: ShipKind) -> (s: String)
    ensures
        s@ == kind_name(k),
{
    match k {
        ShipKind::Carrier => String::from_str("Carrier"),
        ShipKind::Battleship => String::from_str("Battleship"),
        ShipKind::Cruiser => String::from_str("Cruiser"),
        ShipKind::Submarine => String::from_str("Submarine"),
        ShipKind::Destroyer => String::from_str("Destroyer"),
    }
}

/// The orientation that a name stands for, ignoring ASCII case.
pub open spec fn orientation_named(name: Seq<char>) -> Option<Orientation> {
    let l = lower(name);
    if l == "horizontal"@ || l == "h"@ {
        Some(Orientation::Horizontal)
    } else if l == "vertical"@ || l == "v"@ {
        Some(Orientation::Vertical)
    } else {
        None
    }
}

/// The ship kind a name stands for, ignoring ASCII case.
pub fn parse_ship(name: &str) -> (k: Option<ShipKind>)
    ensures
        k == ship_named(name@),
{
    if lower_eq(name, "carrier") {
        Some(ShipKind::Carrier)
    } else if lower_eq(name, "battleship") {
        Some(ShipKind::Battleship)
    } else if lower_eq(name, "cruiser") {
        Some(ShipKind::Cruiser)
    } else if lower_eq(name, "submarine") {
        Some(ShipKind::Submarine)
    } else if lower_eq(name, "destroyer") {
        Some(ShipKind::Destroyer)
    } else {
        None
    }
}

/// The orientation a name stands for, ignoring ASCII case.
pub fn parse_orientation(name: &str) -> (o: Option<Orientation>)
    ensures
        o == orientation_named(name@),
{
    if lower_eq(name, "horizontal") || lower_eq(name, "h") {
        Some(Orientation::Horizontal)
    } else if lower_eq(name, "vertical") || lower_eq(name, "v") {
        Some(Orientation::Vertical)
    } else {
        None
    }
}

/// Lower-casing twice is lower-casing once.
proof fn lemma_lower_idempotent(s: Seq<char>)
    ensures
        lower(lower(s)) == lower(s),
{
    assert forall|i: int| 0 <= i < s.len() implies #[trigger] lower_char(lower_char(s[i])) == lower_char(s[i]) by {
        let c = s[i];
        if 'A' <= c <= 'Z' {
            assert('a' <= lower_char(c) <= 'z');
        }
    }
    assert(lower(lower(s)) =~= lower(s));
}

/// Law: names are read without regard to ASCII case. A name stands for the
/// same orientation, and the same ship, as its lower-case form, so two names
/// that differ only in the case of their letters stand for the same thing.
pub proof fn lemma_names_ignore_case(s: Seq<char>, t: Seq<char>)
    ensures
        orientation_named(s) == orientation_named(lower(s)),
        ship_named(s) == ship_named(lower(s)),
        lower(s) == lower(t) ==> orientation_named(s) == orientation_named(t) && ship_named(s)
            == ship_named(t),
{
    lemma_lower_idempotent(s);
    lemma_lower_idempotent(t);
}

/// One ship of a fleet as a player describes it.
pub struct PlacementRequest {
    pub ship: String,
    pub row: u8,
    pub col: u8,
    pub orientation: String,
}

/// The placement a request describes, or why it describes none.
pub open spec fn requested_placement(d: PlacementRequest, index: usize) -> Result<Placement, RequestError> {
    match ship_named(d.ship@) {
        None => Err(RequestError::UnknownShip { index }),
        Some(ship) => match orientation_named(d.orientation@) {
            None => Err(RequestError::UnknownOrientation { index }),
            Some(orientation) => Ok(Placement { ship, row: d.row, col: d.col, orientation }),
        },
    }
}

/// The first error among the first `n` requests, if any.
pub open spec fn first_request_error(ds: Seq<PlacementRequest>, n: int) -> Option<RequestError>
    decreases n,
{
    if n <= 0 {
        None
    } else {
        match first_request_error(ds, n - 1) {
            Some(e) => Some(e),
            None => match requested_placement(ds[n - 1], (n - 1) as usize) {
                Err(e) => Some(e),
                Ok(_) => None,
            },
        }
    }
}

proof fn lemma_first_error_stable(ds: Seq<PlacementRequest>, n: int, m: int)
    requires
        n <= m,
        first_request_error(ds, n) is Some,
    ensures
        first_request_error(ds, m) == first_request_error(ds, n),
    decreases m - n,
{
    if n < m {
        lemma_first_error_stable(ds, n, m - 1);
    }
}

/// Build a fleet from placements a player gave (or a random one when none
/// were given), rejecting anything that is not a legal standard fleet: the
/// wrong number of placements, the first unknown ship or orientation name,
/// or a fleet that breaks the rules.
pub fn resolve_fleet(placements: Option<Vec<PlacementRequest>>, rng: &mut StdRng) -> (r: Result<
    Fleet,
    RequestError,
>)
    ensures
        r matches Ok(f) ==> fleet_is_valid(f.placements@),
        placements is None ==> r is Ok,
        placements matches Some(ds) ==> {
            if ds@.len() != NUM_SHIPS {
                r == Err::<Fleet, RequestError>(RequestError::WrongPlacementCount)
            } else if first_request_error(ds@, NUM_SHIPS as int) is Some {
                r == Err::<Fleet, RequestError>(first_request_error(ds@, NUM_SHIPS as int).unwrap())
            } else {
                &&& r is Ok ==> forall|a: int|
                    0 <= a < NUM_SHIPS ==> Ok::<Placement, RequestError>(r.unwrap().placements@[a])
                        == requested_placement(ds@[a], a as usize)
                &&& r is Err ==> r == Err::<Fleet, RequestError>(RequestError::IllegalFleet)
                &&& r is Err <==> !fleet_is_valid(
                    Seq::new(NUM_SHIPS as nat, |a: int| requested_placement(ds@[a], a as usize).unwrap()),
                )
            }
        },
{
    let dtos = match placements {
        None => {
            return Ok(random_fleet(rng));
        },
        Some(dtos) => dtos,
    };
    if dtos.len() != NUM_SHIPS {
        return Err(RequestError::WrongPlacementCount);
    }
    let mut out: Vec<Placement> = Vec::with_capacity(NUM_SHIPS);
    let mut i: usize = 0;
    while i < NUM_SHIPS
        invariant
            dtos@.len() == NUM_SHIPS,
            i <= NUM_SHIPS,
            out@.len() == i,
            first_request_error(dtos@, i as int) is None,
            placements matches Some(ds) && ds@ == dtos@,
            forall|a: int|
                0 <= a < i ==> Ok::<Placement, RequestError>(#[trigger] out@[a]) == requested_placement(
                    dtos@[a],
                    a as usize,
                ),
        decreases NUM_SHIPS - i,
    {
        let d = &dtos[i];
        let ship = match parse_ship(d.ship.as_str()) {
            Some(k) => k,
            None => {
                proof {
                    assert(first_request_error(dtos@, i + 1) == Some(RequestError::UnknownShip { index: i }));
                    lemma_first_error_stable(dtos@, i + 1, NUM_SHIPS as int);
                }
                return Err(RequestError::UnknownShip { index: i });
            },
        };
        let orientation = match parse_orientation(d.orientation.as_str()) {
            Some(o) => o,
            None => {
                proof {
                    assert(first_request_error(dtos@, i + 1) == Some(RequestError::UnknownOrientation { index: i }));
                    lemma_first_error_stable(dtos@, i + 1, NUM_SHIPS as int);
                }
                return Err(RequestError::UnknownOrientation { index: i });
            },
        };
        out.push(Placement { ship, row: d.row, col: d.col, orientation });
        i = i + 1;
    }
    let fleet = Fleet { placements: [out[0], out[1], out[2], out[3], out[4]] };
    proof {
        assert(fleet.placements@ =~= Seq::new(
            NUM_SHIPS as nat,
            |a: int| requested_placement(dtos@[a], a as usize).unwrap(),
        ));
    }
    if !fleet.is_valid() {
        return Err(RequestError::IllegalFleet);
    }
    Ok(fleet)
}

/// `origin` is one of the `allowed` origins.
pub open spec fn origin_allowed(origin: Seq<char>, allowed: Seq<String>) -> bool {
    exists|i: int| 0 <= i < allowed.len() && (#[trigger] allowed[i])@ == origin
}

/// The text of an optional request origin.
pub open spec fn origin_text(origin: Option<&str>) -> Option<Seq<char>> {
    match origin {
        Some(o) => Some(o@),
        None => None,
    }
}

/// The response headers, as name and value, for a request from `origin`:
/// the content type and `Vary: Origin` always; and, exactly when the origin
/// is allowed, the CORS headers that let it call (including the one that
/// answers a private-network preflight).
pub open spec fn cors_pairs(origin: Option<Seq<char>>, allowed: Seq<String>) -> Seq<(Seq<char>, Seq<char>)> {
    let base = seq![("Content-Type"@, "application/json"@), ("Vary"@, "Origin"@)];
    if origin is Some && origin_allowed(origin.unwrap(), allowed) {
        base + seq![
            ("Access-Control-Allow-Origin"@, origin.unwrap()),
            ("Access-Control-Allow-Methods"@, "POST, GET, OPTIONS"@),
            ("Access-Control-Allow-Headers"@, "Content-Type"@),
            ("Access-Control-Allow-Private-Network"@, "true"@),
        ]
    } else {
        base
    }
}

/// Law: a request whose origin equals any one of the allowed origins, at
/// whatever position in the list, is answered with the four CORS headers,
/// the first of them naming that origin; a request from an origin equal to
/// none of them, or with no origin, gets only the content type and `Vary`.
pub proof fn lemma_listed_origin_gets_cors(origin: Seq<char>, allowed: Seq<String>)
    ensures
        forall|i: int|
            0 <= i < allowed.len() && (#[trigger] allowed[i])@ == origin ==> {
                &&& cors_pairs(Some(origin), allowed).len() == 6
                &&& cors_pairs(Some(origin), allowed)[2] == ("Access-Control-Allow-Origin"@, origin)
                &&& cors_pairs(Some(origin), allowed)[3] == ("Access-Control-Allow-Methods"@, "POST, GET, OPTIONS"@)
                &&& cors_pairs(Some(origin), allowed)[4] == ("Access-Control-Allow-Headers"@, "Content-Type"@)
                &&& cors_pairs(Some(origin), allowed)[5] == ("Access-Control-Allow-Private-Network"@, "true"@)
            },
        (forall|i: int| 0 <= i < allowed.len() ==> (#[trigger] allowed[i])@ != origin) ==> cors_pairs(
            Some(origin),
            allowed,
        ).len() == 2,
        cors_pairs(None, allowed).len() == 2,
{
}

/// A header as name and value.
fn header(name: &str, value: &str) -> (h: (String, String))
    ensures
        h.0@ == name@,
        h.1@ == value@,
{
    (String::from_str(name), String::from_str(value))
}

/// The headers to answer a request from `origin` with, given the origins
/// allowed to call the agent.
pub fn cors_header_pairs(origin: Option<&str>, allowed: &Vec<String>) -> (h: Vec<(String, String)>)
    ensures
        h@.len() == cors_pairs(origin_text(origin), allowed@).len(),
        forall|i: int|
            0 <= i < h@.len() ==> ((#[trigger] h@[i]).0@, h@[i].1@) == cors_pairs(
                origin_text(origin),
                allowed@,
            )[i],
{
    let mut h: Vec<(String, String)> = Vec::new();
    h.push(header("Content-Type", "application/json"));
    h.push(header("Vary", "Origin"));
    if let Some(o) = origin {
        let wanted = String::from_str(o);
        let mut found = false;
        let mut i: usize = 0;
        while i < allowed.len()
            invariant
                i <= allowed@.len(),
                wanted@ == o@,
                found == exists|j: int| 0 <= j < i && (#[trigger] allowed@[j])@ == o@,
            decreases allowed@.len() - i,
        {
            if allowed[i] == wanted {
                found = true;
            }
            i = i + 1;
        }
        if found {
            h.push(header("Access-Control-Allow-Origin", o));
            h.push(header("Access-Control-Allow-Methods", "POST, GET, OPTIONS"));
            h.push(header("Access-Control-Allow-Headers", "Content-Type"));
            h.push(header("Access-Control-Allow-Private-Network", "true"));
        }
    }
    h
}

/// Calls `str::to_ascii_lowercase`: a copy of `s` with ASCII upper-case
/// letters turned to lower case. Trusted: as the standard library
/// documents, 'A' to 'Z' become 'a' to 'z' and every other character is kept.
#[verifier::external_body]
fn ascii_lowercase(s: &str) -> (r: String)
    ensures
        r@ == lower(s@),
{
    s.to_ascii_lowercase()
}

/// The message shown for a request error; the requests that produced it
/// supply the unknown names.
pub open spec fn request_error_text(e: RequestError, requests: Seq<PlacementRequest>) -> Seq<char> {
    match e {
        RequestError::BadCoordinates => "coordinates must be 0..9"@,
        RequestError::WrongPlacementCount => "expected 5 placements"@,
        RequestError::UnknownShip { index } => "unknown ship `"@ + requests[index as int].ship@ + "`"@,
        RequestError::UnknownOrientation { index } => "unknown orientation `"@ + lower(
            requests[index as int].orientation@,
        ) + "`"@,
        RequestError::IllegalFleet => "illegal fleet: need one of each ship, fully on board, no overlaps"@,
    }
}

/// The message shown for a request error.
pub fn request_error_message(e: RequestError, requests: &Vec<PlacementRequest>) -> (m: String)
    requires
        e matches RequestError::UnknownShip { index } ==> index < requests@.len(),
        e matches RequestError::UnknownOrientation { index } ==> index < requests@.len(),
    ensures
        m@ == request_error_text(e, requests@),
{
    match e {
        RequestError::BadCoordinates => String::from_str("coordinates must be 0..9"),
        RequestError::WrongPlacementCount => String::from_str("expected 5 placements"),
        RequestError::UnknownShip { index } => {
            let mut m = String::from_str("unknown ship `");
            m.append(requests[index].ship.as_str());
            m.append("`");
            m
        },
        RequestError::UnknownOrientation { index } => {
            let mut m = String::from_str("unknown orientation `");
            let lowered = ascii_lowercase(requests[index].orientation.as_str());
            m.append(lowered.as_str());
            m.append("`");
            m
        },
        RequestError::IllegalFleet => String::from_str(
            "illegal fleet: need one of each ship, fully on board, no overlaps",
        ),
    }
}

/// The name of an orientation, as shown to players.
pub open spec fn orientation_text(o: Orientation) -> Seq<char> {
    match o {
        Orientation::Horizontal => "horizontal"@,
        Orientation::Vertical => "vertical"@,
    }
}

/// The fleet's placements described as a player would give them: ship
/// name, row, column and orientation name, slot by slot.
pub fn fleet_requests(fleet: &Fleet) -> (v: Vec<PlacementRequest>)
    ensures
        v@.len() == NUM_SHIPS,
        forall|a: int|
            0 <= a < NUM_SHIPS ==> {
                &&& (#[trigger] v@[a]).ship@ == kind_name(fleet.placements@[a].ship)
                &&& v@[a].row == fleet.placements@[a].row
                &&& v@[a].col == fleet.placements@[a].col
                &&& v@[a].orientation@ == orientation_text(fleet.placements@[a].orientation)
            },
{
    let mut v: Vec<PlacementRequest> = Vec::with_capacity(NUM_SHIPS);
    let mut a: usize = 0;
    while a < NUM_SHIPS
        invariant
            a <= NUM_SHIPS,
            v@.len() == a,
            forall|b: int|
                0 <= b < a ==> {
                    &&& (#[trigger] v@[b]).ship@ == kind_name(fleet.placements@[b].ship)
                    &&& v@[b].row == fleet.placements@[b].row
                    &&& v@[b].col == fleet.placements@[b].col
                    &&& v@[b].orientation@ == orientation_text(fleet.placements@[b].orientation)
                },
        decreases NUM_SHIPS - a,
    {
        let p = fleet.placements[a];
        let orientation = match p.orientation {
            Orientation::Horizontal => String::from_str("horizontal"),
            Orientation::Vertical => String::from_str("vertical"),
        };
        v.push(PlacementRequest { ship: ship_name(p.ship), row: p.row, col: p.col, orientation });
        a = a + 1;
    }
    v
}

/// Each ship of the fleet, by name, with the cells it occupies.
pub fn fleet_ship_cells(fleet: &Fleet) -> (v: Vec<(String, Vec<(u8, u8)>)>)
    ensures
        v@.len() == NUM_SHIPS,
        forall|a: int|
            0 <= a < NUM_SHIPS ==> (#[trigger] v@[a]).0@ == kind_name(fleet.placements@[a].ship)
                && v@[a].1@ == fleet.placements@[a].spec_cells(),
{
    let mut v: Vec<(String, Vec<(u8, u8)>)> = Vec::with_capacity(NUM_SHIPS);
    let mut a: usize = 0;
    while a < NUM_SHIPS
        invariant
            a <= NUM_SHIPS,
            v@.len() == a,
            forall|b: int|
                0 <= b < a ==> (#[trigger] v@[b]).0@ == kind_name(fleet.placements@[b].ship)
                    && v@[b].1@ == fleet.placements@[b].spec_cells(),
        decreases NUM_SHIPS - a,
    {
        let p = fleet.placements[a];
        v.push((ship_name(p.ship), p.cells()));
        a = a + 1;
    }
    v
}

} // verus!
