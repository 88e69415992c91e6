use nanai_multifall::ai::eval::compact_eval::{evaluate_hole_clearance_compact, evaluate_roof_and_hole_compact, evaluate_row_fill_compact, evaluate_well_creation_compact};
use nanai_multifall::ai::eval::cooperation::{
    calculate_adjacency_bonus, calculate_lane_distance_penalty, calculate_signal_cooperation, calculate_well_cooperation,
};
use nanai_multifall::ai::eval::global_eval::{evaluate_hole_clearance_global, evaluate_roof_and_hole_global, evaluate_well_creation_global};
use nanai_multifall::ai::eval::metrics::{calculate_border_metrics, calculate_bottom_priority_bonus, calculate_height_metrics};
use nanai_multifall::ai::eval::Evaluator;
use nanai_multifall::ai::search::aerial_search::aerial_move_candidates;
use nanai_multifall::ai::search::candidates::{determine_autonomous_pace, generate_aerial_candidates, generate_spawn_candidates};
use nanai_multifall::ai::search::spawn_search::{search_inputs_ok, spawn_move_candidates};
use nanai_multifall::ai::search::AutoAi;
use nanai_multifall::ai::types::PredictedPlacement;
use nanai_multifall::board::grid::player_palette_slot;
use nanai_multifall::board::{CompactBoard, GlobalBoard};
use nanai_multifall::config::{LANE_HEIGHT, TOTAL_GRID_WIDTH};
use nanai_multifall::game::{HoleStatus, LanePace, LaneSignalBoard};
use nanai_multifall::tromino::TrominoKind;

fn high_stack_search() {
    let mut board = GlobalBoard::default();
    for y in 0..(LANE_HEIGHT - 2) {
        board.cells[y][0] = Some(player_palette_slot(0));
        board.cells[y][1] = Some(player_palette_slot(0));
        board.cells[y][2] = Some(player_palette_slot(0));
    }
    let kind = TrominoKind::Straight;
    let signals = LaneSignalBoard::default();
    let _ = spawn_move_candidates(&board, 0, &kind, &[], &[], &signals);
}

#[test]
fn tests_test_ai_handles_high_placement_without_panic() {
    high_stack_search();
}

#[test]
fn ai_tests_test_ai_handles_high_placement_without_panic() {
    high_stack_search();
}

#[test]
fn test_mid_air_replanning_on_unexpected_obstacle() {
    let mut board = GlobalBoard::default();
    board.cells[0][0] = Some(player_palette_slot(1));
    let kind = TrominoKind::Straight;
    let signals = LaneSignalBoard::default();
    let moves = aerial_move_candidates(&board, 0, &kind, 0, 10, 1, Some((0, 1)), &[], &signals);
    assert!(!moves.is_empty(), "Replanned move found");
    for m in &moves {
        let collides_with_obstacle = m.target_x == 0 && m.landing_y == 0;
        assert!(!collides_with_obstacle, "AI must replan to a safe target avoiding the unexpected obstacle");
    }
}

#[test]
fn spawn_candidates_cover_lane_and_neighbours() {
    let straight = generate_spawn_candidates(0, &TrominoKind::Straight);
    // rot 0: x in 0..=5; rot 1: x in 0..=5.
    assert_eq!(straight.len(), 12);
    assert_eq!(straight[0], (0, 0));
    assert_eq!(straight[5], (0, 5));
    assert_eq!(straight[6], (1, 0));
    let right = generate_spawn_candidates(7, &TrominoKind::Straight);
    // lane 7 spans 28..=30; rot 0 is clipped at 28, rot 1 at 30.
    assert_eq!(right.first(), Some(&(0, 25)));
    assert!(right.contains(&(0, 28)));
    assert!(!right.contains(&(0, 29)));
    assert!(right.contains(&(1, 30)));
    let corner = generate_spawn_candidates(3, &TrominoKind::Corner);
    assert_eq!(corner.len(), 4 * 9);
}

#[test]
fn aerial_candidates_widen_around_the_piece() {
    let c = generate_aerial_candidates(0, &TrominoKind::Straight, 10);
    // rot 0: x in 0..=13 (widened to 10 + 3); rot 1: x in 0..=13.
    assert_eq!(c.len(), 28);
    assert!(c.contains(&(0, 13)));
    assert!(!c.contains(&(0, 14)));
    let far_left = generate_aerial_candidates(5, &TrominoKind::Corner, 2);
    assert!(far_left.contains(&(0, -1)));
}

#[test]
fn pace_follows_fill_and_uncovered_dips() {
    let empty = GlobalBoard::default();
    assert_eq!(determine_autonomous_pace(&empty, 0), LanePace::SoftDrop);
    let mut full_lane = GlobalBoard::default();
    full_lane.cells[0][0] = Some(0);
    full_lane.cells[0][1] = Some(0);
    full_lane.cells[0][2] = Some(0);
    assert_eq!(determine_autonomous_pace(&full_lane, 0), LanePace::Normal);
    let mut dip = GlobalBoard::default();
    for y in 0..3 {
        dip.cells[y][0] = Some(0);
        dip.cells[y][1] = Some(0);
    }
    dip.cells[0][2] = Some(0);
    // column 2 sits more than a row below the lane's average: an uncovered dip.
    assert_eq!(dip.find_lane_deepest_hole(0), Some((2, 1, false)));
    assert_eq!(determine_autonomous_pace(&dip, 0), LanePace::SoftDrop);
}

#[test]
fn height_metrics_exact() {
    let mut h = [0usize; TOTAL_GRID_WIDTH];
    h[0] = 3;
    h[1] = 1;
    h[5] = 4;
    assert_eq!(calculate_height_metrics(&h), (8, 4, 2 + 1 + 4 + 4));
}

#[test]
fn border_metrics_bridge_and_barrier() {
    let vertical = TrominoKind::Straight.cell_offsets(1);
    assert_eq!(calculate_border_metrics(&TrominoKind::Straight, 1, 3, &vertical, 0), (0, -220));
    assert_eq!(calculate_border_metrics(&TrominoKind::Straight, 1, 3, &vertical, 2), (0, -350));
    let flat = TrominoKind::Straight.cell_offsets(0);
    assert_eq!(calculate_border_metrics(&TrominoKind::Straight, 0, 2, &flat, 0), (18, 0));
    assert_eq!(calculate_border_metrics(&TrominoKind::Straight, 0, 0, &flat, 0), (0, 0));
    let corner = TrominoKind::Corner.cell_offsets(0);
    assert_eq!(calculate_border_metrics(&TrominoKind::Corner, 0, 3, &corner, 5), (36, 0));
}

#[test]
fn bottom_priority_and_lane_distance() {
    assert_eq!(calculate_bottom_priority_bonus(0), 152);
    assert_eq!(calculate_bottom_priority_bonus(18), 8);
    assert_eq!(calculate_bottom_priority_bonus(25), 0);
    assert_eq!(calculate_lane_distance_penalty(0, 1), 0);
    assert_eq!(calculate_lane_distance_penalty(0, 4), -18);
    assert_eq!(calculate_lane_distance_penalty(2, 5), -24);
}

#[test]
fn adjacency_counts_touching_cell_pairs() {
    let flat = TrominoKind::Straight.cell_offsets(0);
    let other = PredictedPlacement { player_id: 1, kind: TrominoKind::Straight, rotation: 0, target_x: 3, landing_y: 0 };
    // piece at x 0..=2, y 0; other at x 3..=5, y 0: one touching pair.
    assert_eq!(calculate_adjacency_bonus(&flat, 0, 0, &[other]), 6);
    let above = PredictedPlacement { player_id: 1, kind: TrominoKind::Straight, rotation: 0, target_x: 0, landing_y: 1 };
    assert_eq!(calculate_adjacency_bonus(&flat, 0, 0, &[above]), 18);
    assert_eq!(calculate_adjacency_bonus(&flat, 0, 0, &[]), 0);
}

#[test]
fn signal_cooperation_terms() {
    let flat = TrominoKind::Straight.cell_offsets(0);
    let mut signals = LaneSignalBoard::default();
    signals.signals[1].hole_x = Some(5);
    signals.signals[1].hole_status = HoleStatus::ReadyForFill;
    assert_eq!(calculate_signal_cooperation(0, &flat, 4, &signals), (140, 0));
    signals.signals[1].hole_status = HoleStatus::WaitingForClearance;
    assert_eq!(calculate_signal_cooperation(0, &flat, 4, &signals), (0, -120));
    signals.signals[1].hole_x = None;
    signals.signals[1].intent_target_x = Some(5);
    assert_eq!(calculate_signal_cooperation(0, &flat, 4, &signals), (0, -75));
    signals.signals[1].intent_target_x = None;
    signals.signals[1].pace = LanePace::SoftDrop;
    assert_eq!(calculate_signal_cooperation(0, &flat, 2, &signals), (0, -30));
    // a lane's own signal counts for nothing; a far lane's ready hole earns nothing.
    assert_eq!(calculate_signal_cooperation(1, &flat, 2, &signals), (0, 0));
    let mut far = LaneSignalBoard::default();
    far.signals[5].hole_x = Some(1);
    far.signals[5].hole_status = HoleStatus::ReadyForFill;
    assert_eq!(calculate_signal_cooperation(0, &flat, 0, &far), (0, 0));
}

#[test]
fn well_cooperation_fill_and_cap() {
    let vertical = TrominoKind::Straight.cell_offsets(1);
    let own = [(0usize, 1usize, 0usize, 2usize)];
    assert_eq!(calculate_well_cooperation(0, &TrominoKind::Straight, 1, 1, 0, &vertical, &own), (220, 0));
    let neighbour = [(1usize, 5usize, 0usize, 3usize)];
    assert_eq!(calculate_well_cooperation(0, &TrominoKind::Straight, 1, 5, 0, &vertical, &neighbour), (480, 0));
    let deep = [(1usize, 5usize, 0usize, 6usize)];
    assert_eq!(calculate_well_cooperation(0, &TrominoKind::Straight, 1, 5, 0, &vertical, &deep), (390, 0));
    let far = [(3usize, 13usize, 0usize, 3usize)];
    assert_eq!(calculate_well_cooperation(0, &TrominoKind::Straight, 1, 13, 0, &vertical, &far), (0, 0));
    let corner = TrominoKind::Corner.cell_offsets(0);
    assert_eq!(calculate_well_cooperation(0, &TrominoKind::Corner, 0, 1, 0, &corner, &own), (0, -280));
    assert_eq!(calculate_well_cooperation(0, &TrominoKind::Corner, 0, 0, 0, &corner, &own), (0, 0));
}

#[test]
fn roof_and_hole_on_both_boards() {
    let mut before = GlobalBoard::default();
    before.cells[3][0] = Some(0);
    let mut after = before;
    // a flat piece at row 1 covers (0..=2, 1), leaving row 0 empty below it.
    after.lock_tromino(0, &TrominoKind::Straight, 0, 0, 1);
    let flat = TrominoKind::Straight.cell_offsets(0);
    let global = evaluate_roof_and_hole_global(&before, &after, &flat, 0, 1);
    // column 0: gap at row 0 was already roofed (-15), the cell slips under row 3 (+65);
    // columns 1 and 2: gaps open to the sky become covered (-220 each).
    assert_eq!(global, (-15 - 220 - 220, 65));
    let compact = evaluate_roof_and_hole_compact(&before.to_compact(), &after.to_compact(), &flat, 0, 1);
    assert_eq!(compact, global);
}

#[test]
fn well_creation_penalises_new_deep_wells() {
    let before = GlobalBoard::default();
    let mut after = GlobalBoard::default();
    after.cells[0][1] = Some(0);
    after.cells[1][1] = Some(0);
    // column 0 becomes a well two deep against column 1 and the wall.
    assert_eq!(evaluate_well_creation_global(&before, &after), -180);
    assert_eq!(evaluate_well_creation_compact(&before.to_compact(), &after.to_compact()), -180);
    assert_eq!(evaluate_well_creation_global(&after, &after), 0);
}

#[test]
fn hole_clearance_counts_rows_over_holes() {
    let mut b = GlobalBoard::default();
    b.cells[2][0] = Some(0);
    assert_eq!(evaluate_hole_clearance_global(&b, &[2, 0]), 120);
    assert_eq!(evaluate_hole_clearance_compact(&b.to_compact(), &[2, 3]), 120);
    assert_eq!(evaluate_hole_clearance_global(&b, &[]), 0);
}

#[test]
fn row_fill_reports_busy_rows() {
    let mut c = CompactBoard { rows: [0; LANE_HEIGHT] };
    c.rows[2] = (1u32 << 20) - 1;
    c.rows[3] = 0xff;
    let vertical = TrominoKind::Straight.cell_offsets(1);
    // every cell of the upright piece has first offset 0, so row 2 is read three times.
    assert_eq!(evaluate_row_fill_compact(&c, &vertical, 2), vec![(20, 17), (20, 17), (20, 17)]);
    let flat = TrominoKind::Straight.cell_offsets(0);
    assert_eq!(evaluate_row_fill_compact(&c, &flat, 1), vec![(20, 17)]);
    c.rows[4] = u32::MAX;
    assert_eq!(evaluate_row_fill_compact(&c, &flat, 4), vec![(32, 15)]);
}

#[test]
fn placement_features_of_a_joint_line() {
    let mut board = GlobalBoard::default();
    for x in 3..TOTAL_GRID_WIDTH {
        board.cells[0][x] = Some(player_palette_slot(2));
    }
    let signals = LaneSignalBoard::default();
    let current = board.to_compact();
    let f = Evaluator::evaluate_placement_compact(&current, &current, 0, &TrominoKind::Straight, 0, 0, 0, &[], &signals);
    assert_eq!(f.lines, 1);
    assert_eq!(f.cooperative_lines, 0);
    assert_eq!(f.holes, 0);
    assert_eq!(f.height_sum, 0);
    assert_eq!(f.bottom_priority, 152);
    assert_eq!(f.lane_distance, -6);
    assert_eq!(f.hole_clearance, 0);

    let full = Evaluator::evaluate_placement(&board, &board, 0, &TrominoKind::Straight, 0, 0, 0, &[], &signals);
    assert_eq!(full.lines, 1);
    assert!(full.row_fill.is_empty());
    assert_eq!(full.anti_roof, f.anti_roof);
    assert_eq!(full.well_creation, f.well_creation);

    let mut half = GlobalBoard::default();
    for x in 6..TOTAL_GRID_WIDTH {
        half.cells[0][x] = Some(2);
    }
    let mut future = half;
    future.lock_tromino(1, &TrominoKind::Straight, 0, 3, 0);
    let g = AutoAi::evaluate_placement_compact(&half.to_compact(), &future.to_compact(), 0, &TrominoKind::Straight, 0, 0, 0, &[], &signals);
    assert_eq!(g.lines, 1);
    assert_eq!(g.cooperative_lines, 1);
}

#[test]
fn predictive_candidates_include_the_joint_line() {
    let mut board = GlobalBoard::default();
    for x in 3..TOTAL_GRID_WIDTH {
        board.cells[0][x] = Some(player_palette_slot(2));
    }
    let predicted_others = vec![PredictedPlacement { player_id: 1, kind: TrominoKind::Straight, rotation: 0, target_x: 4, landing_y: 5 }];
    let signals = LaneSignalBoard::default();
    let moves = spawn_move_candidates(&board, 0, &TrominoKind::Straight, &predicted_others, &[], &signals);
    let joint = moves.iter().find(|m| m.rotation == 0 && m.target_x == 0).expect("flat move at the left edge");
    assert_eq!(joint.landing_y, 0);
    assert_eq!(joint.features.lines, 1);
    // no move lands on the predicted piece's cells.
    for m in &moves {
        for (dx, dy) in TrominoKind::Straight.cell_offsets(m.rotation) {
            let cell = (m.target_x + dx, m.landing_y + dy);
            assert!(!(cell.1 == 5 && (4..=6).contains(&cell.0)));
        }
    }
}

#[test]
fn aerial_candidates_keep_the_current_plan() {
    let mut board = GlobalBoard::default();
    board.cells[0][0] = Some(player_palette_slot(1));
    let signals = LaneSignalBoard::default();
    let moves = aerial_move_candidates(&board, 0, &TrominoKind::Straight, 0, 10, 1, Some((0, 1)), &[], &signals);
    let kept = moves.iter().find(|m| m.target_x == 0 && m.rotation == 1).expect("current plan still reachable");
    assert_eq!(kept.plan_bonus, 120);
    assert_eq!(kept.landing_y, 1);
    assert!(moves.iter().filter(|m| !(m.target_x == 0 && m.rotation == 1)).all(|m| m.plan_bonus == 0));
}

#[test]
fn search_inputs_are_checked() {
    let board = GlobalBoard::default();
    let signals = LaneSignalBoard::default();
    assert!(search_inputs_ok(&board, 0, &[], &signals));
    assert!(!search_inputs_ok(&board, 8, &[], &signals));
    let far = PredictedPlacement { player_id: 1, kind: TrominoKind::Straight, rotation: 0, target_x: i32::MAX, landing_y: 0 };
    assert!(!search_inputs_ok(&board, 0, &[far], &signals));
    let mut rich = GlobalBoard::default();
    rich.score = u32::MAX - 5;
    let low = PredictedPlacement { player_id: 1, kind: TrominoKind::Straight, rotation: 0, target_x: 4, landing_y: 0 };
    let high = PredictedPlacement { player_id: 1, kind: TrominoKind::Straight, rotation: 1, target_x: 4, landing_y: 18 };
    assert!(!search_inputs_ok(&rich, 0, &[low], &signals));
    // a prediction reaching above the top adds no score.
    assert!(search_inputs_ok(&rich, 0, &[high], &signals));
    // any hole column is accepted; a lane number whose i32 cast is i32::MIN is not.
    let mut odd = LaneSignalBoard::default();
    odd.signals[2].hole_x = Some(usize::MAX);
    assert!(search_inputs_ok(&board, 0, &[], &odd));
    odd.signals[2].lane_id = 0x8000_0000;
    assert!(!search_inputs_ok(&board, 0, &[], &odd));
    assert!(search_inputs_ok(&board, 0, &[], &signals));
    // many predictions are fine.
    let many = vec![high; 70_000];
    assert!(search_inputs_ok(&board, 0, &many, &signals));
}

#[test]
fn signal_columns_and_lanes_wrap_to_i32() {
    let flat = TrominoKind::Straight.cell_offsets(0);
    let mut signals = LaneSignalBoard::default();
    signals.signals[1].hole_x = Some((1usize << 32) + 5);
    signals.signals[1].hole_status = HoleStatus::ReadyForFill;
    assert_eq!(calculate_signal_cooperation(0, &flat, 4, &signals), (140, 0));
    signals.signals[1].lane_id = (1usize << 32) + 1;
    assert_eq!(calculate_signal_cooperation(0, &flat, 4, &signals), (140, 0));
    let vertical = TrominoKind::Straight.cell_offsets(1);
    let wrapped = [((1usize << 32) + 1, (1usize << 32) + 5, 0usize, 3usize)];
    assert_eq!(calculate_well_cooperation(0, &TrominoKind::Straight, 1, 5, 0, &vertical, &wrapped), (480, 0));
}
