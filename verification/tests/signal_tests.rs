use nanai_multifall::board::GlobalBoard;
use nanai_multifall::game::signals::{compute_lane_signal, deepest_of};
use nanai_multifall::game::{HoleStatus, LanePace, LaneSignal, LaneSignalBoard};
use nanai_multifall::tromino::TrominoKind;
use rand_core::SeedableRng;

#[test]
fn default_signals_carry_their_lane() {
    let board = LaneSignalBoard::default();
    for (i, s) in board.signals.iter().enumerate() {
        assert_eq!(s.lane_id, i);
        assert_eq!(s.hole_status, HoleStatus::NoHole);
        assert!(s.hole_x.is_none());
        assert!(s.vertical_well.is_none());
        assert!(s.intent_target_x.is_none());
        assert_eq!(s.pace, LanePace::Normal);
    }
    let one = LaneSignal::default();
    assert_eq!(one.lane_id, 0);
}

#[test]
fn covered_hole_waits_and_open_dip_is_ready() {
    let mut covered = GlobalBoard::default();
    covered.cells[2][0] = Some(0);
    let s = compute_lane_signal(&covered, 0, Some((1, LanePace::SoftDrop)));
    assert_eq!(s.lane_id, 0);
    assert_eq!(s.hole_x, Some(0));
    assert_eq!(s.hole_status, HoleStatus::WaitingForClearance);
    assert_eq!(s.intent_target_x, Some(1));
    assert_eq!(s.pace, LanePace::SoftDrop);

    let mut dip = GlobalBoard::default();
    for y in 0..3 {
        dip.cells[y][4] = Some(1);
        dip.cells[y][6] = Some(1);
    }
    let d = compute_lane_signal(&dip, 1, None);
    assert_eq!(d.hole_x, Some(5));
    assert_eq!(d.hole_status, HoleStatus::ReadyForFill);
    assert_eq!(d.vertical_well, Some((5, 0, 3)));
    assert_eq!(d.intent_target_x, None);
    assert_eq!(d.pace, LanePace::Normal);

    let quiet = compute_lane_signal(&GlobalBoard::default(), 3, None);
    assert_eq!(quiet.hole_x, None);
    assert_eq!(quiet.hole_status, HoleStatus::NoHole);
    assert_eq!(quiet.vertical_well, None);
}

#[test]
fn deepest_well_prefers_the_last_of_equal_depth() {
    assert_eq!(deepest_of(&vec![]), None);
    assert_eq!(deepest_of(&vec![(0, 0, 2), (2, 0, 2)]), Some((2, 0, 2)));
    assert_eq!(deepest_of(&vec![(0, 0, 3), (2, 0, 2)]), Some((0, 0, 3)));
}

#[test]
fn draws_select_kinds_by_parity() {
    assert_eq!(TrominoKind::from_random_u32(0), TrominoKind::Straight);
    assert_eq!(TrominoKind::from_random_u32(7), TrominoKind::Corner);
    let mut rng = bevy_prng::WyRand::from_seed([7u8; 8]);
    let mut seen_straight = false;
    let mut seen_corner = false;
    for _ in 0..64 {
        match TrominoKind::random_from_rng(&mut rng) {
            TrominoKind::Straight => seen_straight = true,
            TrominoKind::Corner => seen_corner = true,
        }
    }
    assert!(seen_straight && seen_corner);
}

#[test]
fn shapes_and_rotations() {
    assert_eq!(TrominoKind::Straight.rotation_count(), 2);
    assert_eq!(TrominoKind::Corner.rotation_count(), 4);
    assert_eq!(TrominoKind::Straight.cell_offsets(3), vec![(0, 0), (0, 1), (0, 2)]);
    assert_eq!(TrominoKind::Corner.cell_offsets(6), vec![(0, 1), (1, 1), (1, 0)]);
    assert_eq!(TrominoKind::Straight.initial_rotation(), 1);
    assert_eq!(TrominoKind::Corner.initial_rotation(), 0);
}
