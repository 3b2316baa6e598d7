use rand::rngs::StdRng;
use rand::SeedableRng;
use zk_battleship::board_gen::{random_fleet, random_salt};
use zk_battleship::commitment::{hex, host_commitment, image_id_hex};
use zk_battleship::fleet::Fleet;
use zk_battleship::game::Player;
use zk_battleship::messages::{check_shot_journal, BindingError, CommitInput, ShotInput, ShotJournal};
use zk_battleship::ship::{Orientation, Placement, ShipKind, Shot, TOTAL_SHIP_CELLS};

fn standard_fleet() -> Fleet {
    Fleet {
        placements: [
            Placement { ship: ShipKind::Carrier, row: 0, col: 0, orientation: Orientation::Horizontal },
            Placement { ship: ShipKind::Battleship, row: 2, col: 0, orientation: Orientation::Horizontal },
            Placement { ship: ShipKind::Cruiser, row: 4, col: 0, orientation: Orientation::Horizontal },
            Placement { ship: ShipKind::Submarine, row: 6, col: 0, orientation: Orientation::Horizontal },
            Placement { ship: ShipKind::Destroyer, row: 8, col: 0, orientation: Orientation::Horizontal },
        ],
    }
}

fn all_cells(f: &Fleet) -> Vec<Shot> {
    let mut cells = Vec::new();
    for p in f.placements.iter() {
        for (r, c) in p.cells() {
            cells.push(Shot::new(r, c));
        }
    }
    cells
}

#[test]
fn preimage_bytes_are_canonical() {
    let mut f = standard_fleet();
    f.placements.swap(0, 3);
    let mut expected = vec![0, 0, 0, 0, 1, 2, 0, 0, 2, 4, 0, 0, 3, 6, 0, 0, 4, 8, 0, 0];
    expected.extend_from_slice(&[7u8; 32]);
    assert_eq!(f.digest_preimage(&[7u8; 32]), expected);
}

#[test]
fn preimage_encodes_vertical_orientation() {
    let mut f = standard_fleet();
    f.placements[4] = Placement { ship: ShipKind::Destroyer, row: 8, col: 9, orientation: Orientation::Vertical };
    let pre = f.digest_preimage(&[0u8; 32]);
    assert_eq!(&pre[16..20], &[4, 8, 9, 1]);
    assert_eq!(pre.len(), 52);
}

#[test]
fn host_commitment_is_sha256_of_preimage() {
    let c = host_commitment(&standard_fleet(), &[7u8; 32]);
    assert_eq!(hex(&c), "b8be5180503841811e1c11f564b2b57fa58141902f76c5ca27b17c1f12c4b176");
    let c0 = host_commitment(&standard_fleet(), &[0u8; 32]);
    assert_eq!(hex(&c0), "2a7bcab24e3e26f02c353522b7ce18c802ddc0a70f8fa2c6ede2a0e465dc2f24");
}

#[test]
fn commitment_is_order_independent() {
    let salt = [9u8; 32];
    let mut f2 = standard_fleet();
    f2.placements.reverse();
    assert_eq!(host_commitment(&standard_fleet(), &salt), host_commitment(&f2, &salt));
}

#[test]
fn hex_renders_lower_case_pairs() {
    assert_eq!(hex(&[]), "");
    assert_eq!(hex(&[0x00, 0xab, 0x10, 0xff]), "00ab10ff");
}

#[test]
fn image_id_hex_is_little_endian() {
    let id = [0x0403_0201u32, 0, 0, 0, 0, 0, 0, 0xdead_beef];
    let s = image_id_hex(id);
    assert_eq!(s.len(), 64);
    assert!(s.starts_with("01020304"));
    assert!(s.ends_with("efbeadde"));
}

#[test]
fn commit_rule_rejects_illegal_fleet() {
    let mut fleet = standard_fleet();
    fleet.placements[4].row = fleet.placements[0].row;
    fleet.placements[4].col = fleet.placements[0].col;
    let input = CommitInput { fleet, salt: [1u8; 32] };
    assert!(input.journal().is_none());
}

#[test]
fn commit_rule_matches_host_commitment() {
    let input = CommitInput { fleet: standard_fleet(), salt: [3u8; 32] };
    let j = input.journal().expect("legal fleet commits");
    assert_eq!(j.commitment, host_commitment(&standard_fleet(), &[3u8; 32]));
}

#[test]
fn board_swap_has_no_journal() {
    let salt = [5u8; 32];
    let commitment = host_commitment(&standard_fleet(), &salt);
    let mut lie = standard_fleet();
    lie.placements[4] = Placement { ship: ShipKind::Destroyer, row: 9, col: 0, orientation: Orientation::Horizontal };
    let input = ShotInput { fleet: lie, salt, commitment, shot: Shot::new(0, 0), history: vec![] };
    assert!(input.journal().is_none());
}

#[test]
fn shot_rule_reports_hit_sunk_and_defeat() {
    let fleet = standard_fleet();
    let salt = [2u8; 32];
    let commitment = host_commitment(&fleet, &salt);
    let cells = all_cells(&fleet);
    assert_eq!(cells.len(), TOTAL_SHIP_CELLS);
    let (last, prior) = cells.split_last().unwrap();
    let (pre_last, pre_prior) = prior.split_last().unwrap();

    let j = ShotInput { fleet: fleet.clone(), salt, commitment, shot: *pre_last, history: pre_prior.to_vec() }
        .journal()
        .unwrap();
    assert!(j.hit);
    assert!(!j.defeated);
    assert_eq!(j.sunk, None);
    assert_eq!(j.history, pre_prior.to_vec());

    let j = ShotInput { fleet: fleet.clone(), salt, commitment, shot: *last, history: prior.to_vec() }
        .journal()
        .unwrap();
    assert!(j.hit);
    assert!(j.defeated);
    assert_eq!(j.sunk, Some(ShipKind::Destroyer));
    assert_eq!(j.commitment, commitment);
    assert_eq!(j.shot, *last);

    let j = ShotInput { fleet, salt, commitment, shot: Shot::new(9, 9), history: vec![] }.journal().unwrap();
    assert!(!j.hit);
    assert!(!j.defeated);
    assert_eq!(j.sunk, None);
}

fn sample_journal() -> ShotJournal {
    ShotJournal {
        commitment: [4u8; 32],
        shot: Shot::new(1, 2),
        hit: true,
        sunk: None,
        defeated: false,
        history: vec![Shot::new(0, 0)],
    }
}

#[test]
fn binding_accepts_matching_journal() {
    let j = sample_journal();
    assert_eq!(check_shot_journal(j.clone(), [4u8; 32], Shot::new(1, 2), &[Shot::new(0, 0)]), Ok(j));
}

#[test]
fn binding_rejects_wrong_commitment_shot_and_history() {
    let j = sample_journal();
    assert_eq!(
        check_shot_journal(j.clone(), [0u8; 32], Shot::new(1, 2), &[Shot::new(0, 0)]),
        Err(BindingError::WrongCommitment)
    );
    assert_eq!(
        check_shot_journal(j.clone(), [4u8; 32], Shot::new(0, 0), &[Shot::new(0, 0)]),
        Err(BindingError::WrongShot)
    );
    assert_eq!(check_shot_journal(j.clone(), [4u8; 32], Shot::new(1, 2), &[]), Err(BindingError::WrongHistory));
    assert_eq!(
        check_shot_journal(j, [0u8; 32], Shot::new(0, 0), &[]),
        Err(BindingError::WrongCommitment)
    );
}

#[test]
fn honest_player_answers_verify_and_bind() {
    let mut rng = StdRng::seed_from_u64(3);
    let fleet = random_fleet(&mut rng);
    let salt = random_salt(&mut rng);
    let mut p = Player::new(fleet.clone(), salt);
    assert_eq!(p.commitment(), host_commitment(&fleet, &salt));
    assert_eq!(p.salt(), salt);
    assert_eq!(p.fleet(), &fleet);

    let first = Shot::new(0, 0);
    let j = p.shot_input(first).journal().expect("honest answer has a journal");
    assert_eq!(check_shot_journal(j.clone(), p.commitment(), first, &[]), Ok(j.clone()));
    p.record_answer(first);
    assert!(p.already_answered(first));
    assert!(!p.already_answered(Shot::new(1, 1)));

    let second = Shot::new(5, 5);
    let j2 = p.shot_input(second).journal().unwrap();
    assert_eq!(j2.history, vec![first]);
    // Replay of the first journal for the second turn is refused.
    assert_eq!(check_shot_journal(j, p.commitment(), second, &[first]), Err(BindingError::WrongShot));
}

#[test]
fn player_is_defeated_after_every_cell() {
    let fleet = standard_fleet();
    let mut p = Player::new(fleet.clone(), [0u8; 32]);
    assert!(!p.is_defeated());
    for s in all_cells(&fleet) {
        assert!(!p.is_defeated());
        p.record_answer(s);
    }
    assert!(p.is_defeated());
}

#[test]
fn random_fleets_are_valid_and_salts_random() {
    let mut rng = StdRng::seed_from_u64(42);
    for _ in 0..50 {
        let f = random_fleet(&mut rng);
        assert!(f.is_valid());
    }
    let a = random_salt(&mut rng);
    let b = random_salt(&mut rng);
    assert_ne!(a, b);
}
