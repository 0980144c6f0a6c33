use tetris_engine::board::Board;
use tetris_engine::engine::TetrisEngine;
use tetris_engine::evaluation::{EvaluationWeights, Strategy};
use tetris_engine::pieces::{Piece, PieceType};
use tetris_engine::search::{action_str, Action, SearchEngine};

#[test]
fn piece_ids_decode_in_order() {
    assert_eq!(PieceType::from_i32(0), Some(PieceType::I));
    assert_eq!(PieceType::from_i32(1), Some(PieceType::O));
    assert_eq!(PieceType::from_i32(2), Some(PieceType::T));
    assert_eq!(PieceType::from_i32(3), Some(PieceType::S));
    assert_eq!(PieceType::from_i32(4), Some(PieceType::Z));
    assert_eq!(PieceType::from_i32(5), Some(PieceType::J));
    assert_eq!(PieceType::from_i32(6), Some(PieceType::L));
    assert_eq!(PieceType::from_i32(7), None);
    assert_eq!(PieceType::from_i32(-1), None);
}

#[test]
fn spawn_positions() {
    assert_eq!(PieceType::I.spawn_position(), (3, 19));
    assert_eq!(PieceType::O.spawn_position(), (3, 20));
    assert_eq!(PieceType::T.spawn_position(), (3, 20));
}

#[test]
fn geometry_masks_are_exact() {
    // I piece horizontal at x=3: one window row with bits 3..=6
    let p = Piece::new(PieceType::I, 3, 0);
    assert_eq!(p.get_mask(), Some([0, 0b1111 << 3, 0, 0]));
    // I piece vertical (rotation 1) at x=-2: its column lands on column 0
    let p = Piece::new(PieceType::I, -2, 0).with_rotation(1);
    assert_eq!(p.get_mask(), Some([1, 1, 1, 1]));
    // O piece at x=-1: columns 0 and 1 in window rows 1 and 2
    let p = Piece::new(PieceType::O, -1, 0);
    assert_eq!(p.get_mask(), Some([0, 0b11, 0b11, 0]));
    // absent entries: off the side, or an out-of-range rotation index
    assert_eq!(Piece::new(PieceType::I, 7, 0).get_mask(), None);
    assert_eq!(Piece::new(PieceType::I, 3, 0).with_rotation(4).get_mask(), None);
}

#[test]
fn piece_transforms() {
    let p = Piece::new(PieceType::T, 3, 20);
    assert_eq!(p.rotation, 0);
    assert_eq!(p.rotated(true).rotation, 1);
    assert_eq!(p.rotated(false).rotation, 3);
    let m = p.moved(-2, 1);
    assert_eq!((m.x, m.y), (1, 21));
    assert_eq!(p.with_rotation(2).rotation, 2);
}

#[test]
fn strategy_weights_in_hundredths() {
    let w = EvaluationWeights::new(Strategy::Balanced);
    assert_eq!(
        (w.aggregate_height, w.max_height, w.bumpiness, w.holes),
        (-20, -50, -30, -1000)
    );
    let w = EvaluationWeights::new(Strategy::Aggressive);
    assert_eq!(
        (w.aggregate_height, w.max_height, w.bumpiness, w.holes),
        (-10, -30, -20, -800)
    );
    let w = EvaluationWeights::new(Strategy::Defensive);
    assert_eq!(
        (w.aggregate_height, w.max_height, w.bumpiness, w.holes),
        (-80, -200, -50, -1500)
    );
    let w = EvaluationWeights::new(Strategy::TSpan);
    assert_eq!(
        (w.aggregate_height, w.max_height, w.bumpiness, w.holes),
        (-30, -80, -25, -1200)
    );
}

#[test]
fn evaluate_weighs_each_metric() {
    let mut data = [0i32; 200];
    data[180] = 1;
    data[190] = 1;
    data[191] = 1;
    data[182] = 1;
    let b = Board::from_flat_array(&data);
    // metrics: heights sum 5, max 2, holes 1, bumpiness 4
    let w = EvaluationWeights::new(Strategy::Balanced);
    let e = b.evaluate(&w);
    assert_eq!(e.score, 5 * -20 + 2 * -50 + 1 * -1000 + 4 * -30);
}

#[test]
fn landing_positions_on_empty_board() {
    let engine = SearchEngine::new();
    let b = Board::new();
    // I horizontal occupies window row 1: rests with that row on row 39
    let p = Piece::new(PieceType::I, 3, 5);
    assert_eq!(engine.find_landing_position(&b, &p), Some(38));
    // O occupies window rows 1 and 2
    let p = Piece::new(PieceType::O, 3, 5);
    assert_eq!(engine.find_landing_position(&b, &p), Some(37));
    // no landing when even the top row collides
    let mut full = Board::new();
    for y in 0..40 {
        full.rows[y] = 0b11_1111_1111;
    }
    assert_eq!(engine.find_landing_position(&full, &Piece::new(PieceType::O, 3, 5)), None);
}

#[test]
fn every_shape_places_on_an_empty_board() {
    let engine = SearchEngine::new();
    let b = Board::new();
    for id in 0..7 {
        let t = PieceType::from_i32(id).unwrap();
        let placements = engine.generate_all_placements(&b, t);
        assert!(!placements.is_empty(), "shape id {} yields no placement", id);
    }
    // exact count for the O piece: 9 valid columns in each of 4 rotations
    let placements = engine.generate_all_placements(&b, PieceType::O);
    assert_eq!(placements.len(), 36);
}

#[test]
fn planner_emits_steps_then_hard_drop() {
    let engine = SearchEngine::new();
    let b = Board::new();
    let target = tetris_engine::pieces::Placement::new(-1, 37, 0);
    // default-style timing: a nonzero auto-repeat rate, so no slides
    let plan = engine.generate_move_sequence(&b, PieceType::O, &target, 16, 133);
    assert_eq!(
        plan,
        vec![
            Action::MoveLeft,
            Action::MoveLeft,
            Action::MoveLeft,
            Action::MoveLeft,
            Action::HardDrop
        ]
    );
}

#[test]
fn planner_uses_slides_when_auto_repeat_is_instant() {
    let engine = SearchEngine::new();
    let b = Board::new();
    let target = tetris_engine::pieces::Placement::new(-1, 37, 0);
    // arr = 0 and a cheap delayed-auto-shift: one slide beats four steps
    let plan = engine.generate_move_sequence(&b, PieceType::O, &target, 0, 2);
    assert_eq!(plan, vec![Action::MoveAllTheWayLeft, Action::HardDrop]);
}

#[test]
fn planner_path_replays_without_collision() {
    // a stacked board; replay the emitted prefix at spawn height and check
    // every intermediate pose, ending exactly at the target pose
    let mut data = [0i32; 200];
    for x in 0..6 {
        data[190 + x] = 1;
        data[180 + x] = 1;
    }
    let board = Board::from_flat_array(&data);
    let engine = SearchEngine::new();
    for rotation in 0..4usize {
        let target = tetris_engine::pieces::Placement::new(6, 0, rotation);
        let plan = engine.generate_move_sequence(&board, PieceType::T, &target, 16, 133);
        assert_eq!(*plan.last().unwrap(), Action::HardDrop);
        if plan.len() == 1 {
            continue;
        }
        let mut piece = Piece::spawn(PieceType::T);
        for action in &plan[..plan.len() - 1] {
            piece = match action {
                Action::Rotate => piece.rotated(true),
                Action::RotateCcw => piece.rotated(false),
                Action::MoveLeft => piece.moved(-1, 0),
                Action::MoveRight => piece.moved(1, 0),
                Action::MoveAllTheWayLeft | Action::MoveAllTheWayRight => {
                    panic!("slides need arr == 0")
                }
                Action::HardDrop => panic!("hard drop before the end"),
            };
            assert!(board.can_place_piece(&piece), "intermediate pose collides");
        }
        assert_eq!(piece.x, target.x);
        assert_eq!(piece.rotation, target.rotation);
    }
}

#[test]
fn search_falls_back_when_nothing_places() {
    // a board with every row full admits no placement at all: the search
    // reports the immediate-drop fallback
    let full = Board { rows: [0b11_1111_1111u32; 40] };
    let mut engine = SearchEngine::new();
    assert!(engine.generate_all_placements(&full, PieceType::T).is_empty());
    let result = engine.search(&full, PieceType::T, None, Strategy::Balanced, 16, 133, false);
    assert_eq!(result.best_move, "hard_drop");
}

#[test]
fn action_names_match_the_interface() {
    assert_eq!(action_str(Action::Rotate), "rotate");
    assert_eq!(action_str(Action::RotateCcw), "rotate_ccw");
    assert_eq!(action_str(Action::MoveLeft), "move_left");
    assert_eq!(action_str(Action::MoveRight), "move_right");
    assert_eq!(action_str(Action::MoveAllTheWayLeft), "move_all_the_way_left");
    assert_eq!(action_str(Action::MoveAllTheWayRight), "move_all_the_way_right");
    assert_eq!(action_str(Action::HardDrop), "hard_drop");
}

#[test]
fn square_on_empty_board_scenario() {
    // empty board, O piece: the best landing fills the bottom two visible
    // rows with no holes, and the plan is |dx| steps plus the drop
    let mut engine = TetrisEngine::new();
    let board = [0i32; 200];
    let seq = engine.get_full_move_sequence(&board, 1, -1, Strategy::Balanced);
    assert_eq!(seq, "move_left,move_left,move_left,move_left,hard_drop");
    // the chosen landing: O at column -1, resting on the bottom two rows
    let mut predicted = Board::from_flat_array(&board);
    assert!(predicted.lock_piece(&Piece::new(PieceType::O, -1, 37)));
    let (_, _, holes, bumpiness) = predicted.get_evaluation_metrics();
    assert_eq!(holes, 0);
    // an O resting against the wall leaves a single two-high ledge
    assert_eq!(bumpiness, 2);
    assert!(predicted.get_cell(0, 38) && predicted.get_cell(1, 39));
}

#[test]
fn engine_returns_hard_drop_when_spawn_is_buried() {
    let mut engine = TetrisEngine::new();
    let mut board = [0i32; 200];
    for i in 0..40 {
        board[i] = 1; // the top four visible rows are solid
    }
    let seq = engine.get_full_move_sequence(&board, 1, -1, Strategy::Balanced);
    assert_eq!(seq, "hard_drop");
}

#[test]
fn continuation_replays_the_queue_in_order() {
    let mut engine = TetrisEngine::new();
    let board = [0i32; 200];
    // first call plans; the next calls replay the queue while the board
    // fingerprint stays unchanged
    let mut seen = Vec::new();
    for _ in 0..5 {
        seen.push(engine.get_best_move(&board, 1, -1, Strategy::Balanced));
    }
    assert_eq!(
        seen,
        vec!["move_left", "move_left", "move_left", "move_left", "hard_drop"]
    );
    // the queue is exhausted: the next call re-plans from scratch
    assert_eq!(engine.get_best_move(&board, 1, -1, Strategy::Balanced), "move_left");
}

#[test]
fn changed_board_discards_the_queue() {
    let mut engine = TetrisEngine::new();
    let board = [0i32; 200];
    assert_eq!(engine.get_best_move(&board, 1, -1, Strategy::Balanced), "move_left");
    // the stack changed: the stale plan is dropped and planning restarts
    let mut other = [0i32; 200];
    for x in 0..10 {
        other[190 + x] = 1;
    }
    assert_eq!(engine.get_best_move(&other, 1, -1, Strategy::Balanced), "move_left");
    // and the fresh plan's fingerprint tracks the new board
    assert_eq!(engine.get_best_move(&other, 1, -1, Strategy::Balanced), "move_left");
}

#[test]
fn identical_inputs_give_identical_outputs() {
    let mut data = [0i32; 200];
    for i in 0..200 {
        data[i] = if (i * 7) % 13 < 4 && i >= 100 { 1 } else { 0 };
    }
    for strategy in [
        Strategy::Balanced,
        Strategy::Aggressive,
        Strategy::Defensive,
        Strategy::TSpan,
    ] {
        for piece in 0..7 {
            let mut a = TetrisEngine::new();
            let mut b = TetrisEngine::new();
            assert_eq!(
                a.get_full_move_sequence(&data, piece, 3, strategy),
                b.get_full_move_sequence(&data, piece, 3, strategy)
            );
            assert_eq!(
                a.get_best_move(&data, piece, 3, strategy),
                b.get_best_move(&data, piece, 3, strategy)
            );
        }
    }
}

#[test]
fn invalid_piece_id_falls_back_to_first_shape() {
    let board = [0i32; 200];
    let mut a = TetrisEngine::new();
    let mut b = TetrisEngine::new();
    assert_eq!(
        a.get_full_move_sequence(&board, 99, -1, Strategy::Balanced),
        b.get_full_move_sequence(&board, 0, -1, Strategy::Balanced)
    );
}

#[test]
fn configure_movement_changes_planning() {
    let mut engine = TetrisEngine::new();
    engine.configure_movement(0, 2, 40, 0);
    engine.configure_logging(false);
    let board = [0i32; 200];
    let seq = engine.get_full_move_sequence(&board, 1, -1, Strategy::Balanced);
    assert_eq!(seq, "move_all_the_way_left,hard_drop");
}
