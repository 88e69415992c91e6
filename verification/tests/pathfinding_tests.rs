use nanai_multifall::ai::pathfinding::{reconstruct_waypoints, PathFinder, SearchTree};
use nanai_multifall::ai::search::AutoAi;
use nanai_multifall::board::grid::player_palette_slot;
use nanai_multifall::board::GlobalBoard;
use nanai_multifall::tromino::TrominoKind;

fn tuck_in_pathfinding_under_overhang() {
    let mut board = GlobalBoard::default();
    board.cells[2][1] = Some(player_palette_slot(0));

    let kind = TrominoKind::Straight;
    let direct_y = AutoAi::simulate_drop_with_tuck(&board, 0, &kind, 1, 1, &[], &[]);
    assert!(direct_y.is_some());
}

#[test]
fn tests_test_tuck_in_pathfinding_under_overhang() {
    tuck_in_pathfinding_under_overhang();
}

#[test]
fn pathfinding_tests_test_tuck_in_pathfinding_under_overhang() {
    tuck_in_pathfinding_under_overhang();
}

fn corner_ground_slide_into_alcove() {
    let mut board = GlobalBoard::default();
    board.cells[1][0] = Some(player_palette_slot(0));

    let path = AutoAi::simulate_drop_with_tuck_path(&board, 0, &TrominoKind::Corner, 3, 0, &[], &[]);
    assert!(path.is_some(), "Should find path into alcove for corner tromino");
    let (landing_y, waypoints) = path.unwrap();
    assert_eq!(landing_y, 0, "Should land at y=0 inside alcove");
    assert!(!waypoints.is_empty(), "Should generate waypoints to guide lateral slide");
}

#[test]
fn tests_test_corner_ground_slide_into_alcove() {
    corner_ground_slide_into_alcove();
}

#[test]
fn pathfinding_tests_test_corner_ground_slide_into_alcove() {
    corner_ground_slide_into_alcove();
}

fn straight_aerial_slide_under_overhang() {
    let mut board = GlobalBoard::default();
    board.cells[2][0] = Some(player_palette_slot(0));
    board.cells[2][1] = Some(player_palette_slot(0));
    board.cells[2][2] = Some(player_palette_slot(0));

    let path = AutoAi::simulate_drop_with_tuck_path(&board, 0, &TrominoKind::Straight, 0, 0, &[], &[]);
    assert!(path.is_some(), "Should find aerial tuck-in path for Straight tromino under overhang");
    let (landing_y, waypoints) = path.unwrap();
    assert_eq!(landing_y, 0, "Should reach bottom y=0 under the roof");
    assert!(waypoints.len() >= 2, "Should have descent then lateral move waypoints");
}

#[test]
fn tests_test_straight_aerial_slide_under_overhang() {
    straight_aerial_slide_under_overhang();
}

#[test]
fn pathfinding_tests_test_straight_aerial_slide_under_overhang() {
    straight_aerial_slide_under_overhang();
}

#[test]
fn upright_piece_stops_on_the_overhang() {
    let mut board = GlobalBoard::default();
    board.cells[2][1] = Some(0);
    assert_eq!(AutoAi::simulate_drop_with_tuck(&board, 0, &TrominoKind::Straight, 1, 1, &[], &[]), Some(3));
    assert_eq!(AutoAi::simulate_drop_with_tuck(&board, 0, &TrominoKind::Straight, 1, 0, &[], &[]), Some(0));
}

#[test]
fn empty_field_drop_lands_on_the_floor() {
    let board = GlobalBoard::default();
    let r = PathFinder::simulate_drop_with_tuck_path(&board, 2, &TrominoKind::Straight, 1, 9, &[], &[]);
    let (y, w) = r.expect("straight drop inside the lane");
    assert_eq!(y, 0);
    assert_eq!(w.last(), Some(&(9, 0)));
}

#[test]
fn reserved_cells_block_the_landing_spot() {
    let board = GlobalBoard::default();
    let reserved = vec![(9, 0), (9, 1), (9, 2)];
    let r = PathFinder::simulate_drop_with_tuck_path(&board, 2, &TrominoKind::Straight, 1, 9, &reserved, &[]);
    let (y, _) = r.expect("lands on the reserved cells");
    assert_eq!(y, 3);
}

#[test]
fn blocked_entrance_gives_no_landing() {
    let board = GlobalBoard::default();
    let air = vec![(0, 18)];
    assert!(PathFinder::simulate_drop_with_tuck_path(&board, 0, &TrominoKind::Straight, 1, 1, &[], &air).is_none());
}

#[test]
fn aerial_drop_from_open_air() {
    let mut board = GlobalBoard::default();
    board.cells[0][0] = Some(1);
    let r = PathFinder::simulate_drop_from_path(&board, &TrominoKind::Straight, 1, 1, 0, 10, 2, &[]);
    let (y, w) = r.expect("reachable");
    assert_eq!(y, 0);
    assert_eq!(w.last(), Some(&(2, 0)));
    let r2 = AutoAi::simulate_drop_from_path(&board, &TrominoKind::Straight, 1, 1, 0, 10, 0, &[]);
    assert_eq!(r2.map(|(y, _)| y), Some(1));
}

#[test]
fn can_place_check_honours_obstacles() {
    let board = GlobalBoard::default();
    assert!(PathFinder::can_place_check(&board, &TrominoKind::Straight, 0, 0, 0, &[]));
    assert!(!PathFinder::can_place_check(&board, &TrominoKind::Straight, 0, 0, 0, &[(2, 0)]));
    assert!(PathFinder::can_place_check(&board, &TrominoKind::Straight, 0, 0, 0, &[(3, 0)]));
}

#[test]
fn waypoints_keep_turning_points() {
    let tree = SearchTree {
        nodes: vec![(0, 5), (0, 4), (0, 3), (1, 3), (2, 3), (2, 2)],
        parents: vec![0, 0, 1, 2, 3, 4],
    };
    let w = reconstruct_waypoints(&tree, 2, 2);
    assert_eq!(w, vec![(0, 3), (2, 3), (2, 2)]);
}
