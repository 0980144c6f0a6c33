//! The packed board: 40 rows of 10-bit occupancy masks.
//!
//! Row 0 is the top of the grid; the bottom 20 rows are the visible play
//! field and the top 20 a hidden buffer above the skyline. Out-of-range
//! coordinate queries read as "occupied", a fail-safe collision sentinel.

use vstd::prelude::*;

use crate::pieces::{blocks_of, lemma_blocks_bounds, mask_spec, offset_valid, Piece};
use vstd::wrapping::u64_specs;

verus! {

pub const BOARD_WIDTH: usize = 10;

pub const BOARD_HEIGHT: usize = 40;

pub const VISIBLE_HEIGHT: usize = 20;

const FULL_ROW: u32 = 0b11_1111_1111;

/// A row is full when all ten column bits are set.
pub open spec fn full_row(r: u32) -> bool {
    r & 0b11_1111_1111u32 == 0b11_1111_1111u32
}

/// Column `x` of a row mask is filled.
pub open spec fn row_bit(row: u32, x: int) -> bool {
    0 <= x < 10 && ((row >> (x as u32)) & 1u32) == 1u32
}

/// Occupancy with the collision sentinel: anything outside the grid reads
/// as occupied.
pub open spec fn cell_occupied(rows: Seq<u32>, x: int, y: int) -> bool {
    if 0 <= x < 10 && 0 <= y < 40 {
        row_bit(rows[y], x)
    } else {
        true
    }
}

proof fn lemma_test_bit(r: u32, x: u32)
    requires
        x < 10,
    ensures
        ((r & (1u32 << x)) != 0) == (((r >> x) & 1u32) == 1u32),
{
    assert(((r & (1u32 << x)) != 0) == (((r >> x) & 1u32) == 1u32)) by (bit_vector)
        requires
            x < 10,
    ;
}

proof fn lemma_set_bit(r: u32, x: u32, i: u32)
    requires
        x < 10,
        i < 10,
    ensures
        ((r | (1u32 << x)) >> i) & 1u32 == (if i == x {
            1u32
        } else {
            (r >> i) & 1u32
        }),
{
    assert(((r | (1u32 << x)) >> i) & 1u32 == (if i == x {
        1u32
    } else {
        (r >> i) & 1u32
    })) by (bit_vector)
        requires
            x < 10,
            i < 10,
    ;
}

proof fn lemma_clear_bit(r: u32, x: u32, i: u32)
    requires
        x < 10,
        i < 10,
    ensures
        ((r & !(1u32 << x)) >> i) & 1u32 == (if i == x {
            0u32
        } else {
            (r >> i) & 1u32
        }),
{
    assert(((r & !(1u32 << x)) >> i) & 1u32 == (if i == x {
        0u32
    } else {
        (r >> i) & 1u32
    })) by (bit_vector)
        requires
            x < 10,
            i < 10,
    ;
}

/// Whether the flat visible-area array fills the cell in board row `y`
/// (20 <= y < 40) and column `x`. Indices beyond the array read as empty.
pub open spec fn flat_cell(data: Seq<i32>, y: int, x: int) -> bool {
    let i = (y - 20) * 10 + x;
    0 <= i < data.len() && data[i] != 0
}

/// The mask of board row `y` built from the first `x` columns of the flat
/// array.
pub open spec fn flat_row_bits(data: Seq<i32>, y: int, x: int) -> u32
    decreases x,
{
    if x <= 0 {
        0u32
    } else if flat_cell(data, y, x - 1) {
        flat_row_bits(data, y, x - 1) | (1u32 << ((x - 1) as u32))
    } else {
        flat_row_bits(data, y, x - 1)
    }
}

/// The board built from a flat visible-area array: the bottom 20 rows carry
/// the array's cells, the hidden buffer above is empty.
pub open spec fn from_flat_spec(data: Seq<i32>) -> Seq<u32> {
    Seq::new(40, |y: int| if y < 20 { 0u32 } else { flat_row_bits(data, y, 10) })
}

proof fn lemma_flat_row_bit(data: Seq<i32>, y: int, n: int, x: int)
    requires
        0 <= x < 10,
        0 <= n <= 10,
    ensures
        row_bit(flat_row_bits(data, y, n), x) <==> (x < n && flat_cell(data, y, x)),
    decreases n,
{
    if n == 0 {
        let xx = x as u32;
        assert((0u32 >> xx) & 1u32 != 1u32) by (bit_vector)
            requires
                xx < 10,
        ;
    } else {
        lemma_flat_row_bit(data, y, n - 1, x);
        if flat_cell(data, y, n - 1) {
            lemma_set_bit(flat_row_bits(data, y, n - 1), (n - 1) as u32, x as u32);
        }
    }
}

/// The built board, cell by cell: a visible row's bit is set exactly when
/// the flat array's entry for that cell is nonzero; the hidden rows are
/// empty.
pub proof fn lemma_from_flat_cells(data: Seq<i32>)
    ensures
        forall|x: int, y: int|
            0 <= x < 10 && 20 <= y < 40 ==> (#[trigger] row_bit(from_flat_spec(data)[y], x)
                <==> flat_cell(data, y, x)),
        forall|y: int| 0 <= y < 20 ==> from_flat_spec(data)[y] == 0u32,
{
    assert forall|x: int, y: int| 0 <= x < 10 && 20 <= y < 40 implies (#[trigger] row_bit(
        from_flat_spec(data)[y],
        x,
    ) <==> flat_cell(data, y, x)) by {
        lemma_flat_row_bit(data, y, 10, x);
    }
}

/// Window row `i` of a mask placed at vertical offset `y` fits: it is empty,
/// or it lies inside the grid and intersects no occupied cell.
pub open spec fn window_row_ok(rows: Seq<u32>, y: int, m: Seq<u16>, i: int) -> bool {
    m[i] == 0 || (0 <= y + i < 40 && rows[y + i] & (m[i] as u32) == 0)
}

/// A piece can rest at its pose: the geometry entry for (shape, rotation,
/// column) exists, and every window row holding blocks lies inside the grid
/// and does not intersect the board.
pub open spec fn spec_can_place(rows: Seq<u32>, p: Piece) -> bool {
    let mo = mask_spec(p.piece_type, p.rotation as int, p.x as int);
    mo is Some && forall|i: int|
        0 <= i < 4 ==> #[trigger] window_row_ok(rows, p.y as int, mo->0, i)
}

/// The board rows with the first `k` window rows of a mask OR'd in at
/// vertical offset `y`; window rows outside the grid are skipped.
pub open spec fn spec_lock_upto(rows: Seq<u32>, y: int, m: Seq<u16>, k: int) -> Seq<u32> {
    Seq::new(rows.len(), |yy: int| if y <= yy < y + k {
        rows[yy] | (m[yy - y] as u32)
    } else {
        rows[yy]
    })
}

/// The board after locking a piece; unchanged when the geometry entry is
/// absent.
pub open spec fn spec_lock(rows: Seq<u32>, p: Piece) -> Seq<u32> {
    match mask_spec(p.piece_type, p.rotation as int, p.x as int) {
        Some(m) => spec_lock_upto(rows, p.y as int, m, 4),
        None => rows,
    }
}

/// Consistency of `canPlace` and `lock` where the geometry entry is absent:
/// `canPlace` is unconditionally false there, and `lock` mutates nothing.
/// (On a colliding pose with geometry, callers in this crate never lock:
/// see `evaluate_placement`.)
pub proof fn lemma_lock_no_geometry(rows: Seq<u32>, p: Piece)
    requires
        mask_spec(p.piece_type, p.rotation as int, p.x as int) is None,
    ensures
        !spec_can_place(rows, p),
        spec_lock(rows, p) == rows,
{
}

/// A placeable piece's column offset lies in `[-3, 9]` and its rotation
/// index is below 4: these are the only triples the geometry has entries
/// for.
pub proof fn lemma_can_place_bounds(rows: Seq<u32>, p: Piece)
    requires
        spec_can_place(rows, p),
    ensures
        -3 <= p.x <= 9,
        p.rotation < 4,
{
    assert(offset_valid(p.piece_type, p.rotation as int, p.x as int));
    lemma_blocks_bounds(p.piece_type, p.rotation as int);
    assert(0 <= p.x + blocks_of(p.piece_type, p.rotation as int)[0].0 < 10);
}

/// The non-full rows of a board, in their original relative order.
pub open spec fn kept_rows(rows: Seq<u32>) -> Seq<u32>
    decreases rows.len(),
{
    if rows.len() == 0 {
        Seq::empty()
    } else if full_row(rows.last()) {
        kept_rows(rows.drop_last())
    } else {
        kept_rows(rows.drop_last()).push(rows.last())
    }
}

/// How many rows of the board are full.
pub open spec fn num_full(rows: Seq<u32>) -> int
    decreases rows.len(),
{
    if rows.len() == 0 {
        0int
    } else {
        num_full(rows.drop_last()) + if full_row(rows.last()) {
            1int
        } else {
            0int
        }
    }
}

pub proof fn lemma_kept_len(rows: Seq<u32>)
    ensures
        kept_rows(rows).len() + num_full(rows) == rows.len(),
        0 <= num_full(rows) <= rows.len(),
    decreases rows.len(),
{
    if rows.len() > 0 {
        lemma_kept_len(rows.drop_last());
    }
}

/// The board after a line clear: full rows dropped, every other row
/// compacted toward the bottom in original relative order, and the vacated
/// rows at the top zeroed. The row count is unchanged.
pub open spec fn clear_spec(rows: Seq<u32>) -> Seq<u32> {
    Seq::new(
        rows.len(),
        |i: int|
            if i < num_full(rows) {
                0u32
            } else {
                kept_rows(rows)[i - num_full(rows)]
            },
    )
}

proof fn lemma_kept_all(rows: Seq<u32>)
    requires
        forall|y: int| 0 <= y < rows.len() ==> !full_row(#[trigger] rows[y]),
    ensures
        kept_rows(rows) == rows,
        num_full(rows) == 0,
    decreases rows.len(),
{
    if rows.len() > 0 {
        lemma_kept_all(rows.drop_last());
        assert(kept_rows(rows) =~= rows);
    }
}

/// A line clear on a board with zero full rows leaves it unchanged.
pub proof fn lemma_clear_no_full_rows(rows: Seq<u32>)
    requires
        forall|y: int| 0 <= y < rows.len() ==> !full_row(#[trigger] rows[y]),
    ensures
        clear_spec(rows) == rows,
        num_full(rows) == 0,
{
    lemma_kept_all(rows);
    assert(clear_spec(rows) =~= rows);
}

proof fn lemma_num_full_additive(a: Seq<u32>, b: Seq<u32>)
    ensures
        num_full(a + b) == num_full(a) + num_full(b),
    decreases b.len(),
{
    if b.len() == 0 {
        assert(a + b =~= a);
    } else {
        lemma_num_full_additive(a, b.drop_last());
        assert((a + b).drop_last() =~= a + b.drop_last());
    }
}

proof fn lemma_kept_index(rows: Seq<u32>, i: int)
    requires
        0 <= i < rows.len(),
        !full_row(rows[i]),
    ensures
        0 <= i - num_full(rows.take(i)) < kept_rows(rows).len(),
        kept_rows(rows)[i - num_full(rows.take(i))] == rows[i],
    decreases rows.len(),
{
    lemma_kept_len(rows.take(i));
    assert(rows.take(i).len() == i);
    if i == rows.len() - 1 {
        lemma_kept_len(rows.drop_last());
        assert(rows.take(i) =~= rows.drop_last());
    } else {
        lemma_kept_index(rows.drop_last(), i);
        assert(rows.drop_last().take(i) =~= rows.take(i));
    }
}

/// A line clear with k full rows: the row count is unchanged, the vacated
/// top k rows are zero, and every non-full row moves down by exactly the
/// number of full rows below it, which keeps the relative order of the
/// non-full rows.
pub proof fn lemma_clear_full_rows(rows: Seq<u32>)
    ensures
        clear_spec(rows).len() == rows.len(),
        forall|i: int| 0 <= i < num_full(rows) ==> clear_spec(rows)[i] == 0u32,
        forall|i: int|
            0 <= i < rows.len() && !full_row(#[trigger] rows[i]) ==> {
                let shifted = i + num_full(rows.skip(i + 1));
                0 <= shifted < rows.len() && clear_spec(rows)[shifted] == rows[i]
            },
{
    lemma_kept_len(rows);
    assert forall|i: int| 0 <= i < rows.len() && !full_row(#[trigger] rows[i]) implies {
        let shifted = i + num_full(rows.skip(i + 1));
        0 <= shifted < rows.len() && clear_spec(rows)[shifted] == rows[i]
    } by {
        lemma_kept_index(rows, i);
        lemma_kept_len(rows.take(i));
        lemma_kept_len(rows.skip(i + 1));
        lemma_num_full_additive(rows.take(i + 1), rows.skip(i + 1));
        assert(rows.take(i + 1) + rows.skip(i + 1) =~= rows);
        assert(rows.take(i + 1).drop_last() =~= rows.take(i));
        assert(rows.take(i + 1).last() == rows[i]);
        assert(num_full(rows) == num_full(rows.take(i)) + num_full(rows.skip(i + 1)));
    }
}

/// The combining hash folded over the first `n` rows.
pub open spec fn hash_prefix(rows: Seq<u32>, n: int) -> u64
    decreases n,
{
    if n <= 0 {
        0u64
    } else {
        u64_specs::wrapping_add(
            u64_specs::wrapping_add(
                u64_specs::wrapping_mul(hash_prefix(rows, n - 1), 31u64),
                rows[n - 1] as u64,
            ),
            (n - 1) as u64,
        )
    }
}

/// The board fingerprint: the combining hash over all 40 rows.
pub open spec fn spec_hash(rows: Seq<u32>) -> u64 {
    hash_prefix(rows, 40)
}

/// The first filled row of column `x` at or below row `y`; 40 when the rest
/// of the column is empty.
pub open spec fn col_first(rows: Seq<u32>, x: int, y: int) -> int
    decreases 40 - y when y <= 40
{
    if y >= 40 {
        40int
    } else if row_bit(rows[y], x) {
        y
    } else {
        col_first(rows, x, y + 1)
    }
}

/// Column height: distance from the top of the grid to the first filled
/// cell; 0 for an empty column.
pub open spec fn col_height(rows: Seq<u32>, x: int) -> int {
    40 - col_first(rows, x, 0)
}

/// Sum of the heights of the first `n` columns.
pub open spec fn sum_heights(rows: Seq<u32>, n: int) -> int
    decreases n,
{
    if n <= 0 {
        0int
    } else {
        sum_heights(rows, n - 1) + col_height(rows, n - 1)
    }
}

/// Maximum height among the first `n` columns.
pub open spec fn max_height(rows: Seq<u32>, n: int) -> int
    decreases n,
{
    if n <= 0 {
        0int
    } else {
        let m = max_height(rows, n - 1);
        let h = col_height(rows, n - 1);
        if h > m {
            h
        } else {
            m
        }
    }
}

/// Empty cells of column `x` in rows `[y, 40)`.
pub open spec fn col_holes_from(rows: Seq<u32>, x: int, y: int) -> int
    decreases 40 - y when y <= 40
{
    if y >= 40 {
        0int
    } else {
        col_holes_from(rows, x, y + 1) + if !row_bit(rows[y], x) {
            1int
        } else {
            0int
        }
    }
}

/// Holes in column `x`: empty cells below the column's first filled cell.
pub open spec fn col_holes(rows: Seq<u32>, x: int) -> int {
    col_holes_from(rows, x, col_first(rows, x, 0))
}

/// Total holes over the first `n` columns.
pub open spec fn total_holes(rows: Seq<u32>, n: int) -> int
    decreases n,
{
    if n <= 0 {
        0int
    } else {
        total_holes(rows, n - 1) + col_holes(rows, n - 1)
    }
}

pub open spec fn abs_diff(a: int, b: int) -> int {
    if a >= b {
        a - b
    } else {
        b - a
    }
}

/// Sum of absolute height differences between the first `n` pairs of
/// adjacent columns.
pub open spec fn bumpiness(rows: Seq<u32>, n: int) -> int
    decreases n,
{
    if n <= 0 {
        0int
    } else {
        bumpiness(rows, n - 1) + abs_diff(col_height(rows, n - 1), col_height(rows, n))
    }
}

/// `col_first` stays within `[y, 40]`.
pub proof fn lemma_col_first_bounds(rows: Seq<u32>, x: int, y: int)
    requires
        0 <= y <= 40,
    ensures
        y <= col_first(rows, x, y) <= 40,
    decreases 40 - y,
{
    if y < 40 && !row_bit(rows[y], x) {
        lemma_col_first_bounds(rows, x, y + 1);
    }
}

/// `col_holes_from` counts at most the rows it scans.
pub proof fn lemma_col_holes_bounds(rows: Seq<u32>, x: int, y: int)
    requires
        0 <= y <= 40,
    ensures
        0 <= col_holes_from(rows, x, y) <= 40 - y,
    decreases 40 - y,
{
    if y < 40 {
        lemma_col_holes_bounds(rows, x, y + 1);
    }
}

proof fn lemma_sum_heights_bounds(rows: Seq<u32>, n: int)
    requires
        0 <= n <= 10,
    ensures
        0 <= sum_heights(rows, n) <= 40 * n,
    decreases n,
{
    if n > 0 {
        lemma_sum_heights_bounds(rows, n - 1);
        lemma_col_first_bounds(rows, n - 1, 0);
    }
}

proof fn lemma_max_height_bounds(rows: Seq<u32>, n: int)
    requires
        0 <= n <= 10,
    ensures
        0 <= max_height(rows, n) <= 40,
    decreases n,
{
    if n > 0 {
        lemma_max_height_bounds(rows, n - 1);
        lemma_col_first_bounds(rows, n - 1, 0);
    }
}

proof fn lemma_total_holes_bounds(rows: Seq<u32>, n: int)
    requires
        0 <= n <= 10,
    ensures
        0 <= total_holes(rows, n) <= 40 * n,
    decreases n,
{
    if n > 0 {
        lemma_total_holes_bounds(rows, n - 1);
        lemma_col_first_bounds(rows, n - 1, 0);
        lemma_col_holes_bounds(rows, n - 1, col_first(rows, n - 1, 0));
    }
}

proof fn lemma_bumpiness_bounds(rows: Seq<u32>, n: int)
    requires
        0 <= n <= 9,
    ensures
        0 <= bumpiness(rows, n) <= 40 * n,
    decreases n,
{
    if n > 0 {
        lemma_bumpiness_bounds(rows, n - 1);
        lemma_col_first_bounds(rows, n - 1, 0);
        lemma_col_first_bounds(rows, n, 0);
    }
}

/// All four board metrics are small: heights and holes sum to at most 400,
/// the peak is at most 40, and bumpiness at most 360.
pub proof fn lemma_metrics_bounds(rows: Seq<u32>)
    ensures
        0 <= sum_heights(rows, 10) <= 400,
        0 <= max_height(rows, 10) <= 40,
        0 <= total_holes(rows, 10) <= 400,
        0 <= bumpiness(rows, 9) <= 360,
{
    lemma_sum_heights_bounds(rows, 10);
    lemma_max_height_bounds(rows, 10);
    lemma_total_holes_bounds(rows, 10);
    lemma_bumpiness_bounds(rows, 9);
}

/// The glyph a rendered cell shows: a newly filled cell (filled here,
/// empty on the comparison board), an existing block, or an empty cell.
pub open spec fn glyph(rows: Seq<u32>, orig: Option<Seq<u32>>, x: int, y: int) -> Seq<char> {
    if orig is Some && row_bit(rows[y], x) && !row_bit(orig->0[y], x) {
        "▓"@
    } else if row_bit(rows[y], x) {
        "█"@
    } else {
        "·"@
    }
}

/// The first `x` glyphs of rendered row `y`.
pub open spec fn render_cells(rows: Seq<u32>, orig: Option<Seq<u32>>, y: int, x: int) -> Seq<char>
    decreases x,
{
    if x <= 0 {
        Seq::empty()
    } else {
        render_cells(rows, orig, y, x - 1) + glyph(rows, orig, x - 1, y)
    }
}

/// A decimal digit's glyph.
pub open spec fn digit_seq(d: int) -> Seq<char> {
    if d == 0 {
        "0"@
    } else if d == 1 {
        "1"@
    } else if d == 2 {
        "2"@
    } else if d == 3 {
        "3"@
    } else if d == 4 {
        "4"@
    } else if d == 5 {
        "5"@
    } else if d == 6 {
        "6"@
    } else if d == 7 {
        "7"@
    } else if d == 8 {
        "8"@
    } else {
        "9"@
    }
}

/// One rendered board line: a two-column visible row number and the ten
/// cell glyphs.
pub open spec fn render_line(rows: Seq<u32>, orig: Option<Seq<u32>>, y: int) -> Seq<char> {
    let visible = y - 20;
    "Row "@ + (if visible < 10 {
        " "@
    } else {
        "1"@
    }) + digit_seq(visible % 10) + ": "@ + render_cells(rows, orig, y, 10) + "\n"@
}

/// The rendered lines for rows `[y, 40)`.
pub open spec fn render_rows(rows: Seq<u32>, orig: Option<Seq<u32>>, y: int) -> Seq<char>
    decreases 40 - y when y <= 40
{
    if y >= 40 {
        Seq::empty()
    } else {
        render_line(rows, orig, y) + render_rows(rows, orig, y + 1)
    }
}

/// The whole rendering: a title line, the twenty visible rows, a blank
/// separator line.
pub open spec fn display_spec(title: Seq<char>, rows: Seq<u32>, orig: Option<Seq<u32>>) -> Seq<
    char,
> {
    "📋 "@ + title + "\n"@ + render_rows(rows, orig, 20) + "\n"@
}

/// The comparison board's rows, if a comparison board was given.
pub open spec fn orig_rows_of(o: Option<&Board>) -> Option<Seq<u32>> {
    if o is Some {
        Some(o->0.rows@)
    } else {
        None
    }
}

/// A decimal digit's glyph, executable form.
fn digit_str(d: usize) -> (r: &'static str)
    requires
        d < 10,
    ensures
        r@ == digit_seq(d as int),
{
    match d {
        0 => "0",
        1 => "1",
        2 => "2",
        3 => "3",
        4 => "4",
        5 => "5",
        6 => "6",
        7 => "7",
        8 => "8",
        _ => "9",
    }
}

/// Packed grid state: one 10-bit occupancy mask per row.
#[derive(Clone, Copy, Debug, PartialEq)]
pub struct Board {
    pub rows: [u32; BOARD_HEIGHT],
}

/// What a line clear returns: how many full rows were removed.
#[derive(Clone, Debug)]
pub struct ClearInfo {
    pub cleared_lines: usize,
}

impl Board {
    /// The empty board.
    pub fn new() -> (b: Self)
        ensures
            forall|y: int| 0 <= y < 40 ==> b.rows@[y] == 0u32,
    {
        Self { rows: [0; BOARD_HEIGHT] }
    }

    /// Builds the board from the flat visible-cell array (row-major, width
    /// 10). Rows derived beyond the visible range are ignored; indices past
    /// the end of the array read as empty.
    pub fn from_flat_array(board_data: &[i32]) -> (b: Self)
        ensures
            b.rows@ == from_flat_spec(board_data@),
    {
        let mut board = Self::new();
        let start_y = BOARD_HEIGHT - VISIBLE_HEIGHT;
        let mut y: usize = 0;
        while y < VISIBLE_HEIGHT
            invariant
                y <= 20,
                start_y == 20,
                board.rows@.len() == 40,
                forall|yy: int| 0 <= yy < 20 ==> board.rows@[yy] == 0u32,
                forall|yy: int|
                    20 <= yy < 20 + y ==> board.rows@[yy] == flat_row_bits(board_data@, yy, 10),
                forall|yy: int| 20 + y <= yy < 40 ==> board.rows@[yy] == 0u32,
            decreases 20 - y,
        {
            let mut row: u32 = 0;
            let mut x: usize = 0;
            while x < BOARD_WIDTH
                invariant
                    x <= 10,
                    y < 20,
                    row == flat_row_bits(board_data@, (20 + y) as int, x as int),
                decreases 10 - x,
            {
                let idx = y * BOARD_WIDTH + x;
                if idx < board_data.len() && board_data[idx] != 0 {
                    row = row | (1u32 << (x as u32));
                }
                x += 1;
            }
            board.rows[start_y + y] = row;
            y += 1;
        }
        proof {
            assert(board.rows@ =~= from_flat_spec(board_data@));
        }
        board
    }

    /// Whether the given row is completely filled.
    pub fn is_full_row(&self, row: usize) -> (r: bool)
        requires
            row < 40,
        ensures
            r == full_row(self.rows@[row as int]),
    {
        (self.rows[row] & FULL_ROW) == FULL_ROW
    }

    /// Sets or clears one cell; coordinates outside the grid are ignored.
    pub fn set_cell(&mut self, x: usize, y: usize, filled: bool)
        ensures
            (x < 10 && y < 40) ==> final(self).rows@ == old(self).rows@.update(
                y as int,
                if filled {
                    old(self).rows@[y as int] | (1u32 << (x as u32))
                } else {
                    old(self).rows@[y as int] & !(1u32 << (x as u32))
                },
            ),
            !(x < 10 && y < 40) ==> *final(self) == *old(self),
            forall|xx: int, yy: int|
                0 <= xx < 10 && 0 <= yy < 40 && !(xx == x as int && yy == y as int)
                    ==> #[trigger] row_bit(final(self).rows@[yy], xx) == row_bit(
                    old(self).rows@[yy],
                    xx,
                ),
            (x < 10 && y < 40) ==> row_bit(final(self).rows@[y as int], x as int) == filled,
    {
        if x < BOARD_WIDTH && y < BOARD_HEIGHT {
            let old_row = self.rows[y];
            let new_row: u32 = if filled {
                old_row | (1u32 << (x as u32))
            } else {
                old_row & !(1u32 << (x as u32))
            };
            self.rows[y] = new_row;
            proof {
                assert forall|xx: int|
                    0 <= xx < 10 implies #[trigger] row_bit(new_row, xx) == (if xx == x as int {
                    filled
                } else {
                    row_bit(old_row, xx)
                }) by {
                    if filled {
                        lemma_set_bit(old_row, x as u32, xx as u32);
                    } else {
                        lemma_clear_bit(old_row, x as u32, xx as u32);
                    }
                }
            }
        }
    }

    /// A piece can rest here: its geometry entry exists, and every window
    /// row with blocks lies inside the grid and meets no occupied cell.
    pub fn can_place_piece(&self, piece: &Piece) -> (r: bool)
        ensures
            r == spec_can_place(self.rows@, *piece),
    {
        if let Some(mask) = piece.get_mask() {
            let ghost m = mask_spec(piece.piece_type, piece.rotation as int, piece.x as int)->0;
            let mut i: usize = 0;
            while i < 4
                invariant
                    i <= 4,
                    mask@ == m,
                    mask_spec(piece.piece_type, piece.rotation as int, piece.x as int) == Some(m),
                    forall|j: int|
                        0 <= j < i ==> #[trigger] window_row_ok(self.rows@, piece.y as int, m, j),
                decreases 4 - i,
            {
                let row_mask = mask[i];
                if row_mask != 0 {
                    let by = piece.y as i64 + i as i64;
                    if by < 0 || by >= 40 {
                        proof {
                            let mo = mask_spec(
                                piece.piece_type,
                                piece.rotation as int,
                                piece.x as int,
                            );
                            assert(mo->0 == m);
                            assert(!window_row_ok(self.rows@, piece.y as int, mo->0, i as int));
                            assert(!spec_can_place(self.rows@, *piece));
                        }
                        return false;
                    }
                    if (self.rows[by as usize] & (row_mask as u32)) != 0 {
                        proof {
                            let mo = mask_spec(
                                piece.piece_type,
                                piece.rotation as int,
                                piece.x as int,
                            );
                            assert(mo->0 == m);
                            assert(!window_row_ok(self.rows@, piece.y as int, mo->0, i as int));
                            assert(!spec_can_place(self.rows@, *piece));
                        }
                        return false;
                    }
                }
                i += 1;
            }
            true
        } else {
            false
        }
    }

    /// Locks a piece: ORs each geometry window row into the matching board
    /// row (rows falling outside the grid are skipped). A no-op returning
    /// false when the geometry entry is absent.
    pub fn lock_piece(&mut self, piece: &Piece) -> (r: bool)
        ensures
            final(self).rows@ == spec_lock(old(self).rows@, *piece),
            r == (mask_spec(piece.piece_type, piece.rotation as int, piece.x as int) is Some),
    {
        if let Some(mask) = piece.get_mask() {
            let mut i: usize = 0;
            while i < 4
                invariant
                    i <= 4,
                    mask@ == mask_spec(piece.piece_type, piece.rotation as int, piece.x as int)->0,
                    mask_spec(piece.piece_type, piece.rotation as int, piece.x as int) is Some,
                    self.rows@ == spec_lock_upto(old(self).rows@, piece.y as int, mask@, i as int),
                decreases 4 - i,
            {
                let by = piece.y as i64 + i as i64;
                if by >= 0 && by < 40 {
                    self.rows[by as usize] = self.rows[by as usize] | (mask[i] as u32);
                }
                i += 1;
                proof {
                    assert(self.rows@ =~= spec_lock_upto(
                        old(self).rows@,
                        piece.y as int,
                        mask@,
                        i as int,
                    ));
                }
            }
            true
        } else {
            false
        }
    }

    /// Drops every full row, compacts the rest toward the bottom in their
    /// original order, zeroes the vacated rows at the top, and reports how
    /// many rows were removed.
    pub fn clear_lines(&mut self) -> (info: ClearInfo)
        ensures
            final(self).rows@ == clear_spec(old(self).rows@),
            info.cleared_lines as int == num_full(old(self).rows@),
    {
        let mut kept: Vec<u32> = Vec::new();
        let mut cleared: usize = 0;
        let mut y: usize = 0;
        while y < BOARD_HEIGHT
            invariant
                y <= 40,
                *self == *old(self),
                kept@ == kept_rows(old(self).rows@.take(y as int)),
                cleared as int == num_full(old(self).rows@.take(y as int)),
                kept@.len() + cleared == y,
            decreases 40 - y,
        {
            if !self.is_full_row(y) {
                kept.push(self.rows[y]);
            } else {
                cleared += 1;
            }
            y += 1;
            proof {
                assert(old(self).rows@.take(y as int).drop_last() =~= old(self).rows@.take(
                    y as int - 1,
                ));
            }
        }
        proof {
            assert(old(self).rows@.take(40) =~= old(self).rows@);
        }
        let k = cleared;
        let mut new_rows = [0u32; BOARD_HEIGHT];
        let mut j: usize = 0;
        while j < kept.len()
            invariant
                j <= kept@.len(),
                kept@.len() + k == 40,
                kept@ == kept_rows(old(self).rows@),
                new_rows@.len() == 40,
                forall|i: int| 0 <= i < k ==> new_rows@[i] == 0u32,
                forall|i: int| k <= i < k + j ==> new_rows@[i] == kept@[i - k],
                forall|i: int| k + j <= i < 40 ==> new_rows@[i] == 0u32,
            decreases kept@.len() - j,
        {
            new_rows[k + j] = kept[j];
            j += 1;
        }
        self.rows = new_rows;
        proof {
            assert(self.rows@ =~= clear_spec(old(self).rows@));
        }
        ClearInfo { cleared_lines: k }
    }

    /// Deterministic, order-sensitive combining hash over all 40 rows. Not
    /// cryptographic: used only to detect whether the board changed since a
    /// plan was computed.
    pub fn hash(&self) -> (h: u64)
        ensures
            h == spec_hash(self.rows@),
    {
        let mut h: u64 = 0;
        let mut i: usize = 0;
        while i < BOARD_HEIGHT
            invariant
                i <= 40,
                h == hash_prefix(self.rows@, i as int),
            decreases 40 - i,
        {
            h = h.wrapping_mul(31).wrapping_add(self.rows[i] as u64).wrapping_add(i as u64);
            i += 1;
        }
        h
    }

    /// Per column, the distance from the top of the 40-row grid to the first
    /// filled cell; 0 for an empty column.
    pub fn get_heights(&self) -> (h: [usize; BOARD_WIDTH])
        ensures
            forall|x: int| 0 <= x < 10 ==> #[trigger] h@[x] == col_height(self.rows@, x),
            h@.len() == 10,
    {
        let mut heights = [0usize; BOARD_WIDTH];
        let mut x: usize = 0;
        while x < BOARD_WIDTH
            invariant
                x <= 10,
                heights@.len() == 10,
                forall|xx: int| 0 <= xx < x ==> #[trigger] heights@[xx] == col_height(
                    self.rows@,
                    xx,
                ),
            decreases 10 - x,
        {
            let mut y: usize = 0;
            while y < BOARD_HEIGHT
                invariant_except_break
                    y <= 40,
                    x < 10,
                    col_first(self.rows@, x as int, 0) == col_first(self.rows@, x as int, y as int),
                ensures
                    y <= 40,
                    col_first(self.rows@, x as int, 0) == y as int,
                decreases 40 - y,
            {
                if self.get_cell(x, y) {
                    break ;
                }
                y += 1;
            }
            heights[x] = BOARD_HEIGHT - y;
            x += 1;
        }
        heights
    }

    /// One pass over the board's columns: (sum of heights, maximum height,
    /// hole count, bumpiness). A hole is an empty cell below its column's
    /// first filled cell; bumpiness sums the absolute height differences of
    /// adjacent columns.
    pub fn get_evaluation_metrics(&self) -> (m: (usize, usize, usize, usize))
        ensures
            m.0 as int == sum_heights(self.rows@, 10),
            m.1 as int == max_height(self.rows@, 10),
            m.2 as int == total_holes(self.rows@, 10),
            m.3 as int == bumpiness(self.rows@, 9),
    {
        let heights = self.get_heights();
        proof {
            assert forall|xx: int| 0 <= xx < 10 implies 0 <= #[trigger] col_height(self.rows@, xx) <= 40 by {
                lemma_col_first_bounds(self.rows@, xx, 0);
            }
        }
        let mut total_height: usize = 0;
        let mut max_h: usize = 0;
        let mut x: usize = 0;
        while x < 10
            invariant
                x <= 10,
                heights@.len() == 10,
                forall|xx: int| 0 <= xx < 10 ==> #[trigger] heights@[xx] == col_height(
                    self.rows@,
                    xx,
                ),
                forall|xx: int| 0 <= xx < 10 ==> 0 <= #[trigger] col_height(self.rows@, xx) <= 40,
                total_height as int == sum_heights(self.rows@, x as int),
                total_height <= 40 * x,
                max_h as int == max_height(self.rows@, x as int),
                max_h <= 40,
            decreases 10 - x,
        {
            let h = heights[x];
            total_height += h;
            if h > max_h {
                max_h = h;
            }
            x += 1;
        }
        let mut holes: usize = 0;
        let mut x2: usize = 0;
        while x2 < 10
            invariant
                x2 <= 10,
                heights@.len() == 10,
                forall|xx: int| 0 <= xx < 10 ==> #[trigger] heights@[xx] == col_height(
                    self.rows@,
                    xx,
                ),
                forall|xx: int| 0 <= xx < 10 ==> 0 <= #[trigger] col_height(self.rows@, xx) <= 40,
                holes as int == total_holes(self.rows@, x2 as int),
                holes <= 40 * x2,
            decreases 10 - x2,
        {
            proof {
                lemma_col_first_bounds(self.rows@, x2 as int, 0);
                lemma_col_holes_bounds(self.rows@, x2 as int, col_first(self.rows@, x2 as int, 0));
            }
            let height = heights[x2];
            if height > 0 {
                let ghost first = col_first(self.rows@, x2 as int, 0);
                let mut y: usize = BOARD_HEIGHT - height;
                let mut cnt: usize = 0;
                while y < BOARD_HEIGHT
                    invariant
                        x2 < 10,
                        first == col_first(self.rows@, x2 as int, 0),
                        0 <= first <= 40,
                        first <= y <= 40,
                        cnt as int + col_holes_from(self.rows@, x2 as int, y as int)
                            == col_holes_from(self.rows@, x2 as int, first),
                        cnt <= y - first,
                    decreases 40 - y,
                {
                    if !self.get_cell(x2, y) {
                        cnt += 1;
                    }
                    y += 1;
                }
                holes += cnt;
            }
            x2 += 1;
        }
        let mut bump: usize = 0;
        let mut x3: usize = 0;
        while x3 < 9
            invariant
                x3 <= 9,
                heights@.len() == 10,
                forall|xx: int| 0 <= xx < 10 ==> #[trigger] heights@[xx] == col_height(
                    self.rows@,
                    xx,
                ),
                forall|xx: int| 0 <= xx < 10 ==> 0 <= #[trigger] col_height(self.rows@, xx) <= 40,
                bump as int == bumpiness(self.rows@, x3 as int),
                bump <= 40 * x3,
            decreases 9 - x3,
        {
            let a = heights[x3];
            let b = heights[x3 + 1];
            let d = if a >= b {
                a - b
            } else {
                b - a
            };
            bump += d;
            x3 += 1;
        }
        (total_height, max_h, holes, bump)
    }

    /// Renders the visible bottom 20 rows as text for diagnostics: a title
    /// line, one line per row with its visible row number and a glyph per
    /// cell, and a blank separator line. Cells filled here but empty on the
    /// comparison board are marked as new.
    pub fn display_board(&self, title: &str, original_board: Option<&Board>) -> (out: String)
        ensures
            out@ == display_spec(title@, self.rows@, orig_rows_of(original_board)),
    {
        let ghost rows = self.rows@;
        let ghost orig = orig_rows_of(original_board);
        let mut out = String::new();
        out.append("📋 ");
        out.append(title);
        out.append("\n");
        let ghost head = out@;
        let mut y: usize = 20;
        while y < BOARD_HEIGHT
            invariant
                20 <= y <= 40,
                rows == self.rows@,
                orig == orig_rows_of(original_board),
                out@ + render_rows(rows, orig, y as int) == head + render_rows(rows, orig, 20),
            decreases 40 - y,
        {
            let mut line = String::new();
            line.append("Row ");
            let visible_row = y - 20;
            if visible_row < 10 {
                line.append(" ");
            } else {
                line.append("1");
            }
            line.append(digit_str(visible_row % 10));
            line.append(": ");
            let ghost label = line@;
            let mut x: usize = 0;
            while x < BOARD_WIDTH
                invariant
                    x <= 10,
                    y < 40,
                    rows == self.rows@,
                    orig == orig_rows_of(original_board),
                    line@ == label + render_cells(rows, orig, y as int, x as int),
                decreases 10 - x,
            {
                let filled = self.get_cell(x, y);
                let is_new = match original_board {
                    Some(ob) => filled && !ob.get_cell(x, y),
                    None => false,
                };
                let g = if is_new {
                    "▓"
                } else if filled {
                    "█"
                } else {
                    "·"
                };
                proof {
                    assert(g@ == glyph(rows, orig, x as int, y as int));
                    assert((label + render_cells(rows, orig, y as int, x as int)) + g@ =~= label + (
                    render_cells(rows, orig, y as int, x as int) + g@));
                }
                line.append(g);
                x += 1;
            }
            line.append("\n");
            proof {
                assert(line@ == render_line(rows, orig, y as int));
            }
            let ghost out_pre = out@;
            out.append(line.as_str());
            proof {
                assert((out_pre + render_line(rows, orig, y as int)) + render_rows(
                    rows,
                    orig,
                    y as int + 1,
                ) =~= out_pre + (render_line(rows, orig, y as int) + render_rows(
                    rows,
                    orig,
                    y as int + 1,
                )));
            }
            y += 1;
        }
        out.append("\n");
        proof {
            assert(out@ =~= display_spec(title@, self.rows@, orig_rows_of(original_board)));
        }
        out
    }

    /// Reads one cell; coordinates outside the grid read as occupied.
    pub fn get_cell(&self, x: usize, y: usize) -> (r: bool)
        ensures
            r == cell_occupied(self.rows@, x as int, y as int),
    {
        if x < BOARD_WIDTH && y < BOARD_HEIGHT {
            proof {
                lemma_test_bit(self.rows@[y as int], x as u32);
            }
            (self.rows[y] & (1u32 << (x as u32))) != 0
        } else {
            true
        }
    }
}

} // verus!
