use nanai_multifall::board::grid::player_palette_slot;
use nanai_multifall::board::{is_border_column, lane_x_range, CompactBoard, GlobalBoard};
use nanai_multifall::config::{LANE_HEIGHT, SPAWN_WALL_MIN_Y, TOTAL_GRID_WIDTH};
use nanai_multifall::tromino::TrominoKind;

fn border_column_and_wall() {
    assert!(is_border_column(3));
    assert!(is_border_column(7));
    assert!(is_border_column(11));
    assert!(!is_border_column(0));
    assert!(!is_border_column(2));
    assert!(!is_border_column(4));

    let board = GlobalBoard::default();
    assert!(board.is_occupied(3, SPAWN_WALL_MIN_Y as i32));
    assert!(board.is_occupied(7, (SPAWN_WALL_MIN_Y + 1) as i32));
    assert!(!board.is_occupied(3, (SPAWN_WALL_MIN_Y - 1) as i32));
    assert!(!board.is_occupied(7, 0));
}

#[test]
fn tests_test_border_column_and_wall() {
    border_column_and_wall();
}

#[test]
fn board_tests_test_border_column_and_wall() {
    border_column_and_wall();
}

fn player_colored_lock_and_wide_line_clear() {
    let mut board = GlobalBoard::default();
    let kind = TrominoKind::Straight;

    board.lock_tromino(0, &kind, 0, 0, 0);
    assert_eq!(board.cells[0][0], Some(player_palette_slot(0)));
    assert_eq!(board.cells[0][1], Some(player_palette_slot(0)));
    assert_eq!(board.cells[0][2], Some(player_palette_slot(0)));

    for x in 3..TOTAL_GRID_WIDTH {
        board.cells[0][x] = Some(player_palette_slot(1));
    }

    let cleared = board.clear_full_lines();
    assert_eq!(cleared, 1);
    assert_eq!(board.lines_cleared, 1);
}

#[test]
fn tests_test_player_colored_lock_and_wide_line_clear() {
    player_colored_lock_and_wide_line_clear();
}

#[test]
fn board_tests_test_player_colored_lock_and_wide_line_clear() {
    player_colored_lock_and_wide_line_clear();
}

fn movement_destination_collision_prevention() {
    let mut board = GlobalBoard::default();
    let kind = TrominoKind::Straight;

    board.cells[5][2] = Some(player_palette_slot(3));

    assert!(!board.can_place(&kind, 0, 1, 5));
    assert!(board.can_place(&kind, 0, 3, 5));
}

#[test]
fn tests_test_movement_destination_collision_prevention() {
    movement_destination_collision_prevention();
}

#[test]
fn board_tests_test_movement_destination_collision_prevention() {
    movement_destination_collision_prevention();
}

fn rotation_collision_check() {
    let board = GlobalBoard::default();
    let kind = TrominoKind::Straight;

    assert!(board.can_place(&kind, 1, 30, 0));
    assert!(!board.can_place(&kind, 0, 30, 0));
    assert!(board.can_place(&kind, 0, 28, 0));
}

#[test]
fn tests_test_rotation_collision_check() {
    rotation_collision_check();
}

#[test]
fn board_tests_test_rotation_collision_check() {
    rotation_collision_check();
}

fn hole_detection_and_progress_pacing() {
    let mut board = GlobalBoard::default();
    board.cells[2][0] = Some(player_palette_slot(0));

    let hole = board.find_lane_deepest_hole(0);
    assert!(hole.is_some());
    let (hx, hy, has_roof) = hole.unwrap();
    assert_eq!(hx, 0);
    assert!(has_roof, "Should detect roof over hole");
    assert!(hy < 2);

    // The fill ratio at the target line is the filled count over the lane's three columns.
    let fresh_board = GlobalBoard::default();
    assert_eq!(fresh_board.lane_fill_count_at_target_line(0) as f32 / 3.0, 0.0);

    let ratio = board.lane_fill_count_at_target_line(0) as f32 / 3.0;
    assert!((ratio - 1.0 / 3.0).abs() < 0.01);

    // The pace of every move the lane considers is the lane's own pace.
    let kind = TrominoKind::Straight;
    let signals = nanai_multifall::game::LaneSignalBoard::default();
    let moves = nanai_multifall::ai::search::spawn_search::spawn_move_candidates(&board, 0, &kind, &[], &[], &signals);
    let best_move = moves.first().expect("Move found");
    assert_eq!(best_move.pace, nanai_multifall::game::LanePace::SoftDrop);
}

#[test]
fn tests_test_hole_detection_and_progress_pacing() {
    hole_detection_and_progress_pacing();
}

#[test]
fn board_tests_test_hole_detection_and_progress_pacing() {
    hole_detection_and_progress_pacing();
}

#[test]
fn lane_ranges_are_three_columns_between_separators() {
    assert_eq!(lane_x_range(0), (0, 2));
    assert_eq!(lane_x_range(1), (4, 6));
    assert_eq!(lane_x_range(7), (28, 30));
    for lane in 0..7 {
        let (_, hi) = lane_x_range(lane);
        assert!(is_border_column(hi + 1));
    }
    assert!(!is_border_column(TOTAL_GRID_WIDTH));
}

#[test]
fn to_compact_keeps_exactly_the_occupied_cells() {
    let mut board = GlobalBoard::default();
    board.cells[0][0] = Some(1);
    board.cells[3][30] = Some(2);
    board.cells[18][5] = Some(0);
    let c = board.to_compact();
    assert_eq!(c.rows[0], 1);
    assert_eq!(c.rows[3], 1 << 30);
    assert_eq!(c.rows[18], 1 << 5);
    for y in 0..LANE_HEIGHT {
        for x in 0..TOTAL_GRID_WIDTH {
            assert_eq!(c.has_cell(x, y), board.cells[y][x].is_some());
        }
    }
}

#[test]
fn twin_boards_agree_after_lock_and_clear() {
    let mut board = GlobalBoard::default();
    for x in 3..TOTAL_GRID_WIDTH {
        board.cells[0][x] = Some(4);
    }
    board.cells[1][10] = Some(4);
    let mut compact = board.to_compact();
    board.lock_tromino(0, &TrominoKind::Straight, 0, 0, 0);
    compact.lock_tromino(&TrominoKind::Straight, 0, 0, 0);
    let (lines_full, idx_full) = board.clear_full_lines_with_indices();
    let (lines_compact, idx_compact) = compact.clear_full_lines_with_indices();
    assert_eq!(lines_full, 1);
    assert_eq!(lines_compact, 1);
    assert_eq!(idx_full, vec![0]);
    assert_eq!(idx_compact, vec![0]);
    assert_eq!(board.to_compact(), compact);
    assert!(compact.has_cell(10, 0));
}

#[test]
fn clear_scores_by_number_of_rows() {
    let mut board = GlobalBoard::default();
    for y in 0..3 {
        for x in 0..TOTAL_GRID_WIDTH {
            board.cells[y][x] = Some(0);
        }
    }
    board.cells[3][7] = Some(0);
    let lines = board.clear_full_lines();
    assert_eq!(lines, 3);
    assert_eq!(board.score, 1800);
    assert_eq!(board.lines_cleared, 3);
    assert_eq!(board.board_version, 1);
    assert_eq!(board.cells[0][7], Some(0));
    assert_eq!(board.cells[3][7], None);

    let mut two = GlobalBoard::default();
    for y in 0..2 {
        for x in 0..TOTAL_GRID_WIDTH {
            two.cells[y][x] = Some(0);
        }
    }
    assert_eq!(two.clear_full_lines(), 2);
    assert_eq!(two.score, 800);

    let mut five = GlobalBoard::default();
    for y in 0..5 {
        for x in 0..TOTAL_GRID_WIDTH {
            five.cells[y][x] = Some(0);
        }
    }
    assert_eq!(five.clear_full_lines(), 5);
    assert_eq!(five.score, 2500);

    let mut none = GlobalBoard::default();
    assert_eq!(none.clear_full_lines(), 0);
    assert_eq!(none.score, 0);
    assert_eq!(none.board_version, 0);
}

#[test]
fn clearing_twice_clears_nothing_more() {
    let mut board = GlobalBoard::default();
    for x in 0..TOTAL_GRID_WIDTH {
        board.cells[2][x] = Some(1);
    }
    board.cells[0][4] = Some(1);
    board.cells[5][9] = Some(1);
    assert_eq!(board.clear_full_lines(), 1);
    let snapshot = board.cells;
    assert_eq!(board.clear_full_lines(), 0);
    assert_eq!(board.cells, snapshot);
    assert_eq!(board.cells[4][9], Some(1));
    assert_eq!(board.cells[0][4], Some(1));
}

#[test]
fn lock_above_the_top_marks_the_lane_stuck() {
    let mut board = GlobalBoard::default();
    let locked = board.lock_tromino(9, &TrominoKind::Straight, 1, 0, LANE_HEIGHT as i32 - 2);
    assert!(!locked);
    assert!(board.lane_stuck[1]);
    assert_eq!(board.score, 0);
    assert_eq!(board.cells[LANE_HEIGHT - 2][0], Some(player_palette_slot(9)));
    assert_eq!(board.cells[LANE_HEIGHT - 1][0], Some(1));
    assert!(!board.game_over);
}

#[test]
fn every_lane_stuck_ends_the_game() {
    let mut board = GlobalBoard::default();
    for lane in 0..7 {
        assert!(!board.mark_lane_stuck(lane));
    }
    assert!(!board.game_over);
    assert!(board.mark_lane_stuck(7));
    assert!(board.game_over);
    board.reset();
    assert!(!board.game_over);
    assert!(board.lane_stuck.iter().all(|s| !s));
}

#[test]
fn column_heights_and_holes() {
    let mut board = GlobalBoard::default();
    board.cells[3][0] = Some(0);
    board.cells[0][1] = Some(0);
    board.cells[1][5] = Some(0);
    let heights = board.column_heights();
    assert_eq!(heights[0], 4);
    assert_eq!(heights[1], 1);
    assert_eq!(heights[5], 2);
    assert_eq!(heights[2], 0);
    assert_eq!(board.count_holes(), 4);
    assert_eq!(board.highest_hole_y(), Some(2));
    assert_eq!(board.lowest_hole_y(), Some(0));
    assert!(board.has_hole_below_in_row(3));
    assert!(!board.has_hole_below_in_row(0));
    let compact = board.to_compact();
    assert_eq!(compact.column_heights(), heights);
    assert_eq!(compact.count_holes(), 4);
    assert_eq!(compact.highest_hole_y(), Some(2));
    assert_eq!(compact.lowest_hole_y(), Some(0));
    assert_eq!(GlobalBoard::default().highest_hole_y(), None);
}

#[test]
fn vertical_wells_and_alcoves() {
    let mut board = GlobalBoard::default();
    board.cells[0][0] = Some(0);
    board.cells[1][0] = Some(0);
    board.cells[0][2] = Some(0);
    board.cells[1][2] = Some(0);
    assert_eq!(board.find_lane_vertical_wells(0), vec![(1, 0, 2)]);
    assert_eq!(board.to_compact().find_lane_vertical_wells(0), vec![(1, 0, 2)]);
    assert!(board.find_all_vertical_wells().contains(&(1, 0, 2)));

    let mut alcove = GlobalBoard::default();
    for y in 1..4 {
        alcove.cells[y][0] = Some(0);
    }
    for y in 0..4 {
        alcove.cells[y][2] = Some(0);
    }
    assert!(alcove.is_unreachable_alcove(0, 0), "x=0, y=0 should be detected as unreachable alcove");
    assert!(alcove.to_compact().is_unreachable_alcove(0, 0));
    assert!(!alcove.is_unreachable_alcove(1, 0));
}

#[test]
fn compact_board_basic_queries() {
    let mut c = CompactBoard { rows: [0; LANE_HEIGHT] };
    assert!(c.is_occupied(-1, 0));
    assert!(c.is_occupied(3, SPAWN_WALL_MIN_Y as i32));
    assert!(!c.is_occupied(3, 0));
    assert!(c.can_place(&TrominoKind::Corner, 0, 0, 0));
    assert!(c.lock_tromino(&TrominoKind::Corner, 0, 0, 0));
    assert!(c.has_cell(0, 1));
    assert!(c.has_cell(1, 0));
    assert!(!c.has_cell(1, 1));
    assert!(!c.can_place(&TrominoKind::Corner, 0, 0, 0));
    assert_eq!(c.clear_full_lines(), 0);
}

#[test]
fn ascii_rows_show_walls_blocks_and_holes() {
    let mut board = GlobalBoard::default();
    board.cells[2][0] = Some(0);
    board.cells[0][3] = Some(0);
    let row0: String = board.ascii_row(0).into_iter().collect();
    assert_eq!(&row0[0..5], ".  # ");
    let row2: String = board.ascii_row(2).into_iter().collect();
    assert_eq!(&row2[0..4], "#  :");
    let top: String = board.ascii_row(LANE_HEIGHT - 1).into_iter().collect();
    assert_eq!(&top[0..5], "   | ");
}
