use tetris_engine::board::{Board, BOARD_HEIGHT, BOARD_WIDTH};
use tetris_engine::pieces::{Piece, PieceType};

const FULL: u32 = 0b11_1111_1111;

#[test]
fn new_board_is_empty() {
    let b = Board::new();
    for y in 0..BOARD_HEIGHT {
        assert_eq!(b.rows[y], 0);
        for x in 0..BOARD_WIDTH {
            assert!(!b.get_cell(x, y));
        }
    }
}

#[test]
fn out_of_range_reads_as_occupied() {
    let b = Board::new();
    assert!(b.get_cell(10, 0));
    assert!(b.get_cell(0, 40));
    assert!(b.get_cell(usize::MAX, usize::MAX));
}

#[test]
fn set_cell_roundtrip() {
    let mut b = Board::new();
    b.set_cell(4, 21, true);
    assert!(b.get_cell(4, 21));
    assert_eq!(b.rows[21], 1 << 4);
    b.set_cell(4, 21, false);
    assert!(!b.get_cell(4, 21));
    assert_eq!(b.rows[21], 0);
}

#[test]
fn set_cell_out_of_range_is_ignored() {
    let mut b = Board::new();
    b.set_cell(10, 0, true);
    b.set_cell(0, 40, true);
    assert_eq!(b, Board::new());
}

#[test]
fn from_flat_array_places_visible_cells() {
    let mut data = [0i32; 200];
    data[5] = 1; // visible row 0, column 5
    data[190] = 7; // visible row 19, column 0
    let b = Board::from_flat_array(&data);
    assert!(b.get_cell(5, 20));
    assert!(b.get_cell(0, 39));
    // hidden buffer stays empty
    for y in 0..20 {
        assert_eq!(b.rows[y], 0);
    }
    // nothing else is set
    assert_eq!(b.rows[20], 1 << 5);
    assert_eq!(b.rows[39], 1);
}

#[test]
fn from_flat_array_short_input_reads_as_empty() {
    let data = [1i32; 10]; // only visible row 0
    let b = Board::from_flat_array(&data);
    assert_eq!(b.rows[20], FULL);
    for y in 21..40 {
        assert_eq!(b.rows[y], 0);
    }
}

#[test]
fn is_full_row_checks_all_ten_bits() {
    let mut b = Board::new();
    b.rows[30] = FULL;
    b.rows[31] = FULL - 1;
    assert!(b.is_full_row(30));
    assert!(!b.is_full_row(31));
}

#[test]
fn can_place_and_lock_are_consistent() {
    let b = Board::new();
    // O piece at spawn: placeable on an empty board
    let p = Piece::new(PieceType::O, 3, 20);
    assert!(b.can_place_piece(&p));
    let mut locked = b;
    assert!(locked.lock_piece(&p));
    // O blocks sit at window rows 1 and 2, columns x+1 and x+2
    assert_eq!(locked.rows[21], 0b11 << 4);
    assert_eq!(locked.rows[22], 0b11 << 4);
    // a second lock on the same cells collides
    assert!(!locked.can_place_piece(&p));
}

#[test]
fn lock_without_geometry_mutates_nothing() {
    // rotation index 4 has no geometry entry: canPlace is false and lock
    // performs no mutation
    let p = Piece::new(PieceType::I, 3, 20).with_rotation(4);
    let b = Board::new();
    assert!(b.get_cell(3, 20) == false);
    assert!(!b.can_place_piece(&p));
    let mut locked = b;
    assert!(!locked.lock_piece(&p));
    assert_eq!(locked, b);
}

#[test]
fn off_board_column_has_no_geometry() {
    let b = Board::new();
    // I piece horizontal spans columns x..x+3: x = 7 reaches column 10
    let p = Piece::new(PieceType::I, 7, 20);
    assert!(!b.can_place_piece(&p));
    let p_ok = Piece::new(PieceType::I, 6, 20);
    assert!(b.can_place_piece(&p_ok));
}

#[test]
fn clear_lines_with_no_full_rows_changes_nothing() {
    let mut data = [0i32; 200];
    for x in 0..9 {
        data[190 + x] = 1; // bottom visible row, one cell short of full
    }
    data[77] = 1;
    let mut b = Board::from_flat_array(&data);
    let before = b;
    let info = b.clear_lines();
    assert_eq!(info.cleared_lines, 0);
    assert_eq!(b, before);
}

#[test]
fn clear_lines_drops_full_rows_and_keeps_order() {
    let mut b = Board::new();
    b.rows[39] = FULL; // bottom row full
    b.rows[38] = 1 << 0; // pattern A
    b.rows[37] = FULL; // full row between the patterns
    b.rows[36] = 1 << 1; // pattern B
    let info = b.clear_lines();
    assert_eq!(info.cleared_lines, 2);
    // non-full rows keep their relative order, compacted to the bottom
    assert_eq!(b.rows[39], 1 << 0);
    assert_eq!(b.rows[38], 1 << 1);
    for y in 0..38 {
        assert_eq!(b.rows[y], 0);
    }
}

#[test]
fn clear_lines_on_single_full_row_leaves_empty_board() {
    // a board with one fully filled visible row, evaluated through the
    // clear: zero full rows remain and the board is empty again
    let mut data = [0i32; 200];
    for x in 0..10 {
        data[50 + x] = 1;
    }
    let mut b = Board::from_flat_array(&data);
    assert!(b.is_full_row(25));
    let info = b.clear_lines();
    assert_eq!(info.cleared_lines, 1);
    assert_eq!(b, Board::new());
    for y in 0..40 {
        assert!(!b.is_full_row(y));
    }
}

#[test]
fn hash_matches_the_combining_formula() {
    let mut b = Board::new();
    b.rows[39] = 0b1010;
    b.rows[20] = FULL;
    let mut expected: u64 = 0;
    for (i, &row) in b.rows.iter().enumerate() {
        expected = expected
            .wrapping_mul(31)
            .wrapping_add(row as u64)
            .wrapping_add(i as u64);
    }
    assert_eq!(b.hash(), expected);
    // order-sensitive: swapping two distinct rows changes the hash
    let mut c = b;
    c.rows.swap(20, 39);
    assert_ne!(b.hash(), c.hash());
}

#[test]
fn heights_and_metrics_are_exact() {
    let mut data = [0i32; 200];
    data[180] = 1; // x=0, visible row 18
    data[190] = 1; // x=0, visible row 19
    data[191] = 1; // x=1, visible row 19
    data[182] = 1; // x=2, visible row 18 -- leaves a hole at (2, 19)
    let b = Board::from_flat_array(&data);
    let h = b.get_heights();
    assert_eq!(h, [2, 1, 2, 0, 0, 0, 0, 0, 0, 0]);
    let (total_height, max_height, holes, bumpiness) = b.get_evaluation_metrics();
    assert_eq!(total_height, 5);
    assert_eq!(max_height, 2);
    assert_eq!(holes, 1);
    assert_eq!(bumpiness, 1 + 1 + 2);
}

#[test]
fn display_board_renders_the_visible_rows() {
    let mut b = Board::new();
    b.set_cell(0, 20, true);
    let mut expected = String::from("📋 STATE\n");
    for i in 0..20 {
        let glyphs: String = (0..10)
            .map(|x| if i == 0 && x == 0 { '█' } else { '·' })
            .collect();
        expected.push_str(&format!("Row {:2}: {}\n", i, glyphs));
    }
    expected.push('\n');
    assert_eq!(b.display_board("STATE", None), expected);
}

#[test]
fn display_board_marks_new_cells() {
    let base = Board::new();
    let mut b = Board::new();
    b.set_cell(3, 39, true);
    let out = b.display_board("DIFF", Some(&base));
    assert!(out.contains("Row 19: ···▓······\n"));
}
