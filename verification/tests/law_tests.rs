use nanai_multifall::ai::eval::Evaluator;
use nanai_multifall::ai::pathfinding::PathFinder;
use nanai_multifall::ai::search::candidates::{generate_aerial_candidates, generate_spawn_candidates};
use nanai_multifall::board::{is_border_column, lane_x_range};
use nanai_multifall::config::LANE_COUNT;
use nanai_multifall::ai::search::aerial_search::aerial_move_candidates;
use nanai_multifall::ai::search::spawn_search::spawn_move_candidates;
use nanai_multifall::ai::types::PredictedPlacement;
use nanai_multifall::board::GlobalBoard;
use nanai_multifall::config::{LANE_HEIGHT, TOTAL_GRID_WIDTH};
use nanai_multifall::falling::{check_position_collision, try_rotate_with_kick};
use nanai_multifall::game::LaneSignalBoard;
use nanai_multifall::tromino::TrominoKind;

fn occupied_cells(board: &GlobalBoard) -> usize {
    board.cells.iter().map(|row| row.iter().filter(|c| c.is_some()).count()).sum()
}

fn sample_board() -> GlobalBoard {
    let mut board = GlobalBoard::default();
    for x in 0..TOTAL_GRID_WIDTH {
        board.cells[1][x] = Some(1);
        board.cells[3][x] = Some(2);
    }
    board.cells[0][4] = Some(3);
    board.cells[2][7] = Some(3);
    board.cells[4][7] = Some(3);
    board.cells[6][20] = Some(3);
    board
}

#[test]
fn clearing_removes_only_the_full_rows_cells() {
    let mut board = sample_board();
    let before = occupied_cells(&board);
    let lines = board.clear_full_lines();
    assert_eq!(lines, 2);
    assert_eq!(occupied_cells(&board), before - TOTAL_GRID_WIDTH * lines);
}

#[test]
fn clearing_never_raises_a_column() {
    let mut board = sample_board();
    let before = board.column_heights();
    board.clear_full_lines();
    let after = board.column_heights();
    for x in 0..TOTAL_GRID_WIDTH {
        assert!(after[x] <= before[x]);
    }
    assert_eq!(after[7], 3);
    assert_eq!(after[20], 5);
}

#[test]
fn locking_never_lowers_a_column_and_fills_the_piece() {
    let mut board = sample_board();
    let before = board.column_heights();
    board.lock_tromino(2, &TrominoKind::Corner, 1, 9, 7);
    let after = board.column_heights();
    for x in 0..TOTAL_GRID_WIDTH {
        assert!(after[x] >= before[x]);
    }
    for (dx, dy) in TrominoKind::Corner.cell_offsets(1) {
        assert_eq!(board.cells[(7 + dy) as usize][(9 + dx) as usize], Some(2));
    }
    assert_eq!(board.cells[7][11], None);
}

#[test]
fn successful_rotations_land_free() {
    let board = sample_board();
    for x in 0..TOTAL_GRID_WIDTH as i32 {
        for y in 0..LANE_HEIGHT as i32 {
            if let Some((nx, ny)) = try_rotate_with_kick(&board, &TrominoKind::Corner, 0, 1, x, y, 0, &[]) {
                assert!(!check_position_collision(&board, &TrominoKind::Corner, 1, nx, ny, 0, &[]));
                assert!((nx - x).abs() <= 1 && (ny - y).abs() <= 1);
            }
        }
    }
}

#[test]
fn offered_moves_fit_and_avoid_reserved_cells() {
    let board = sample_board();
    let other = PredictedPlacement { player_id: 1, kind: TrominoKind::Straight, rotation: 0, target_x: 4, landing_y: 4 };
    let signals = LaneSignalBoard::default();
    let mut future = board;
    future.lock_tromino(1, &TrominoKind::Straight, 0, 4, 4);
    let reserved = [(4, 4), (5, 4), (6, 4)];
    for kind in [TrominoKind::Straight, TrominoKind::Corner] {
        let moves = spawn_move_candidates(&board, 1, &kind, &[other], &[], &signals);
        assert!(!moves.is_empty());
        for m in &moves {
            assert!(future.can_place(&kind, m.rotation, m.target_x, m.landing_y));
            for (dx, dy) in kind.cell_offsets(m.rotation) {
                assert!(!reserved.contains(&(m.target_x + dx, m.landing_y + dy)));
            }
        }
        let air = aerial_move_candidates(&board, 1, &kind, 5, 12, 0, None, &[other], &signals);
        assert!(!air.is_empty());
        for m in &air {
            assert!(future.can_place(&kind, m.rotation, m.target_x, m.landing_y));
        }
    }
}

#[test]
fn both_evaluations_agree() {
    let board = sample_board();
    let signals = LaneSignalBoard::default();
    let c = board.to_compact();
    for (rot, x, y) in [(0usize, 0i32, 2i32), (1, 7, 5), (0, 20, 7)] {
        let a = Evaluator::evaluate_placement_compact(&c, &c, 2, &TrominoKind::Straight, rot, x, y, &[], &signals);
        let b = Evaluator::evaluate_placement(&board, &board, 2, &TrominoKind::Straight, rot, x, y, &[], &signals);
        assert_eq!(
            (a.lines, a.cooperative_lines, a.height_sum, a.max_height, a.bumpiness, a.holes),
            (b.lines, b.cooperative_lines, b.height_sum, b.max_height, b.bumpiness, b.holes)
        );
        assert_eq!(
            (a.border_bridge, a.border_barrier, a.adjacency, a.anti_roof, a.hole_fill, a.well_cooperation),
            (b.border_bridge, b.border_barrier, b.adjacency, b.anti_roof, b.hole_fill, b.well_cooperation)
        );
        assert_eq!(
            (a.well_capping, a.well_creation, a.signal_cooperation, a.non_interference, a.lane_distance),
            (b.well_capping, b.well_creation, b.signal_cooperation, b.non_interference, b.lane_distance)
        );
        assert_eq!((a.bottom_priority, a.hole_clearance), (b.bottom_priority, b.hole_clearance));
        assert!(a.cooperative_lines <= a.lines);
    }
}

#[test]
fn columns_split_into_lanes_and_separators() {
    for x in 0..TOTAL_GRID_WIDTH {
        let lanes: Vec<usize> = (0..LANE_COUNT)
            .filter(|&l| {
                let (lo, hi) = lane_x_range(l);
                lo <= x && x <= hi
            })
            .collect();
        if is_border_column(x) {
            assert!(lanes.is_empty());
        } else {
            assert_eq!(lanes, vec![x / 4]);
        }
    }
}

#[test]
fn bitboard_lock_adds_three_cells_and_second_clear_does_nothing() {
    let board = sample_board();
    let mut compact = board.to_compact();
    let before: u32 = compact.rows.iter().map(|r| (r & 0x7fff_ffff).count_ones()).sum();
    assert!(compact.can_place(&TrominoKind::Corner, 0, 10, 4));
    assert!(compact.lock_tromino(&TrominoKind::Corner, 0, 10, 4));
    let after: u32 = compact.rows.iter().map(|r| (r & 0x7fff_ffff).count_ones()).sum();
    assert_eq!(after, before + 3);
    assert!(!compact.can_place(&TrominoKind::Corner, 0, 10, 4));
    let (n, rows) = compact.clear_full_lines_with_indices();
    assert_eq!((n, rows), (2, vec![1, 3]));
    let once = compact;
    assert_eq!(compact.clear_full_lines_with_indices(), (0, vec![]));
    assert_eq!(compact.rows, once.rows);
}

#[test]
fn holes_are_heights_less_cells() {
    let board = sample_board();
    let heights: usize = board.column_heights().iter().sum();
    assert_eq!(board.count_holes(), heights - occupied_cells(&board));
    let compact = board.to_compact();
    let lowest = compact.lowest_hole_y();
    let highest = compact.highest_hole_y();
    assert!(compact.count_holes() > 0);
    assert!(lowest.unwrap() <= highest.unwrap());
    for y in 1..LANE_HEIGHT {
        if compact.has_hole_below_in_row(y) {
            assert!(lowest.unwrap() < y);
        }
    }
    let empty = GlobalBoard::default().to_compact();
    assert_eq!(empty.count_holes(), 0);
    assert!(empty.lowest_hole_y().is_none() && empty.highest_hole_y().is_none());
}

#[test]
fn lane_wells_are_the_lane_slice_of_all_wells() {
    let mut board = GlobalBoard::default();
    for y in 0..3 {
        board.cells[y][0] = Some(0);
        board.cells[y][2] = Some(0);
        board.cells[y][4] = Some(1);
        board.cells[y][6] = Some(1);
    }
    let all = board.find_all_vertical_wells();
    for lane in 0..LANE_COUNT {
        let (lo, hi) = lane_x_range(lane);
        let expected: Vec<_> = all.iter().copied().filter(|w| lo <= w.0 && w.0 <= hi).collect();
        assert_eq!(board.find_lane_vertical_wells(lane), expected);
    }
    assert!(all.windows(2).all(|p| p[0].0 < p[1].0));
    assert!(all.iter().all(|w| w.2 >= 2));
}

#[test]
fn aerial_candidates_cover_spawn_candidates_and_nearby_columns() {
    for kind in [TrominoKind::Straight, TrominoKind::Corner] {
        let spawn = generate_spawn_candidates(2, &kind);
        let aerial = generate_aerial_candidates(2, &kind, 25);
        assert!(spawn.iter().all(|c| aerial.contains(c)));
        for r in 0..kind.rotation_count() {
            for x in 22..=28 {
                assert!(aerial.contains(&(r, x)));
            }
        }
    }
}

#[test]
fn in_air_route_ignores_the_starting_rotation() {
    let mut board = GlobalBoard::default();
    board.cells[2][0] = Some(0);
    board.cells[2][1] = Some(0);
    board.cells[2][2] = Some(0);
    let a = PathFinder::simulate_drop_from_path(&board, &TrominoKind::Straight, 0, 0, 4, 10, 0, &[]);
    let b = PathFinder::simulate_drop_from_path(&board, &TrominoKind::Straight, 1, 0, 4, 10, 0, &[]);
    assert_eq!(a, b);
    let (y, w) = a.expect("the piece tucks under the roof");
    assert_eq!(y, 0);
    assert!(w.len() >= 2);
    assert_eq!(w.last(), Some(&(0, 0)));
}
