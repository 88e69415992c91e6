use nanai_multifall::board::GlobalBoard;
use nanai_multifall::config::{LANE_HEIGHT, TOTAL_GRID_WIDTH};
use nanai_multifall::falling::{
    check_position_collision, inside_lane_slot, lock_fits_counters, lock_landed_piece, overlaps_other_falling, should_replan, touches_ground,
    try_rotate_with_kick, LockOutcome,
};
use nanai_multifall::tromino::TrominoKind;

#[test]
fn collision_with_field_and_other_pieces() {
    let mut board = GlobalBoard::default();
    board.cells[0][5] = Some(0);
    let falling = vec![(1u64, vec![(10, 5), (11, 5), (12, 5)]), (2u64, vec![(20, 5)])];
    assert!(check_position_collision(&board, &TrominoKind::Straight, 0, 4, 0, 2, &falling));
    assert!(check_position_collision(&board, &TrominoKind::Straight, 0, 9, 5, 2, &falling));
    // a piece never collides with itself.
    assert!(!check_position_collision(&board, &TrominoKind::Straight, 0, 9, 5, 1, &falling));
    assert!(!check_position_collision(&board, &TrominoKind::Straight, 0, 6, 3, 1, &falling));
    assert!(check_position_collision(&board, &TrominoKind::Straight, 0, 29, 3, 1, &falling));
    assert!(overlaps_other_falling(&TrominoKind::Straight, 1, 20, 3, 1, &falling));
    assert!(!overlaps_other_falling(&TrominoKind::Straight, 1, 20, 3, 2, &falling));
}

#[test]
fn rotation_kicks_in_order() {
    let board = GlobalBoard::default();
    // same rotation keeps the place.
    assert_eq!(try_rotate_with_kick(&board, &TrominoKind::Straight, 1, 1, 30, 0, 0, &[]), Some((30, 0)));
    // turning flat one column from the right wall kicks one column left.
    assert_eq!(try_rotate_with_kick(&board, &TrominoKind::Straight, 1, 0, 29, 5, 0, &[]), Some((28, 5)));
    // flush against the wall no kick helps.
    assert_eq!(try_rotate_with_kick(&board, &TrominoKind::Straight, 1, 0, 30, 5, 0, &[]), None);
    assert_eq!(try_rotate_with_kick(&board, &TrominoKind::Straight, 1, 0, 28, 5, 0, &[]), Some((28, 5)));
    assert_eq!(try_rotate_with_kick(&board, &TrominoKind::Straight, 1, 0, -1, 5, 0, &[]), Some((0, 5)));
    let mut floor = GlobalBoard::default();
    floor.cells[0][0] = Some(0);
    floor.cells[0][1] = Some(0);
    floor.cells[0][2] = Some(0);
    floor.cells[0][3] = Some(0);
    assert_eq!(try_rotate_with_kick(&floor, &TrominoKind::Straight, 1, 0, 1, 0, 0, &[]), Some((1, 1)));
}

#[test]
fn ground_contact_and_slot_bounds() {
    let mut board = GlobalBoard::default();
    assert!(touches_ground(&board, &TrominoKind::Straight, 0, 0, 0));
    assert!(!touches_ground(&board, &TrominoKind::Straight, 0, 0, 1));
    board.cells[2][1] = Some(0);
    assert!(touches_ground(&board, &TrominoKind::Straight, 0, 0, 3));
    assert!(inside_lane_slot(&TrominoKind::Straight, 0, 0, 0));
    assert!(!inside_lane_slot(&TrominoKind::Straight, 0, 0, 1));
    assert!(inside_lane_slot(&TrominoKind::Straight, 1, 1, 6));
    assert!(!inside_lane_slot(&TrominoKind::Corner, 0, 1, 6));
}

#[test]
fn replan_triggers() {
    let mut board = GlobalBoard::default();
    assert!(!should_replan(&board, &TrominoKind::Straight, 0, 0, 0, 0, false, false));
    assert!(should_replan(&board, &TrominoKind::Straight, 0, 0, 0, 0, false, true));
    assert!(should_replan(&board, &TrominoKind::Straight, 0, 0, 0, 3, false, false));
    assert!(!should_replan(&board, &TrominoKind::Straight, 0, 0, 0, 3, true, true));
    board.cells[0][1] = Some(0);
    assert!(should_replan(&board, &TrominoKind::Straight, 0, 0, 0, 0, false, false));
}

#[test]
fn lock_outcomes() {
    let mut board = GlobalBoard::default();
    board.cells[0][0] = Some(3);
    let snapshot = board;
    assert_eq!(lock_landed_piece(&mut board, 0, &TrominoKind::Straight, 0, 0, 0), LockOutcome::Blocked);
    assert_eq!(board.cells, snapshot.cells);
    assert_eq!(board.score, 0);

    let mut top = GlobalBoard::default();
    assert_eq!(
        lock_landed_piece(&mut top, 2, &TrominoKind::Straight, 1, 0, LANE_HEIGHT as i32 - 1),
        LockOutcome::AboveCeiling
    );
    assert!(top.lane_stuck[2]);

    let mut line = GlobalBoard::default();
    for x in 3..TOTAL_GRID_WIDTH {
        line.cells[0][x] = Some(5);
    }
    assert_eq!(lock_landed_piece(&mut line, 0, &TrominoKind::Straight, 0, 0, 0), LockOutcome::Locked(1));
    assert_eq!(line.score, 310);
    assert_eq!(line.lines_cleared, 1);
    assert_eq!(line.board_version, 2);
    assert!(line.cells.iter().all(|row| row.iter().all(|c| c.is_none())));

    let mut plain = GlobalBoard::default();
    assert_eq!(lock_landed_piece(&mut plain, 4, &TrominoKind::Corner, 2, 8, 0), LockOutcome::Locked(0));
    assert_eq!(plain.score, 10);
    assert_eq!(plain.board_version, 1);
    assert_eq!(plain.cells[1][8], Some(4));
    assert_eq!(plain.cells[1][9], Some(4));
    assert_eq!(plain.cells[0][9], Some(4));
    assert_eq!(plain.cells[0][8], None);
}

#[test]
fn counters_fit_checks_score_and_lines() {
    let mut board = GlobalBoard::default();
    for x in 3..TOTAL_GRID_WIDTH {
        board.cells[0][x] = Some(5);
    }
    assert!(lock_fits_counters(&board, &TrominoKind::Straight, 0, 0, 0));
    board.score = u32::MAX - 310;
    assert!(lock_fits_counters(&board, &TrominoKind::Straight, 0, 0, 0));
    board.score = u32::MAX - 309;
    assert!(!lock_fits_counters(&board, &TrominoKind::Straight, 0, 0, 0));
    // without a cleared row only the lock's 10 points count.
    assert!(lock_fits_counters(&board, &TrominoKind::Straight, 0, 0, 1));
    board.score = 0;
    board.lines_cleared = u32::MAX;
    assert!(!lock_fits_counters(&board, &TrominoKind::Straight, 0, 0, 0));
    assert!(lock_fits_counters(&board, &TrominoKind::Straight, 0, 0, 1));
}
