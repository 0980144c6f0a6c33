//! Piece shapes, per-rotation geometry, and transient piece values.
//!
//! The geometry maps a (shape, rotation, column offset) triple to a 4-row
//! window of relative occupancy masks. An offset at which any occupied
//! column would fall outside `[0, 10)` has no entry: absence means "this
//! rotation cannot occupy this column", not an error.

use vstd::prelude::*;

verus! {

/// The seven canonical tetromino shapes.
#[derive(Clone, Copy, Debug, PartialEq, Eq, Hash, Structural)]
pub enum PieceType {
    I,
    O,
    T,
    S,
    Z,
    J,
    L,
}

/// Shape id decoding: values 0 through 6 name the seven shapes, in order.
pub open spec fn spec_from_i32(value: i32) -> Option<PieceType> {
    if value == 0 {
        Some(PieceType::I)
    } else if value == 1 {
        Some(PieceType::O)
    } else if value == 2 {
        Some(PieceType::T)
    } else if value == 3 {
        Some(PieceType::S)
    } else if value == 4 {
        Some(PieceType::Z)
    } else if value == 5 {
        Some(PieceType::J)
    } else if value == 6 {
        Some(PieceType::L)
    } else {
        None
    }
}

/// Canonical spawn pose of each shape; the I piece spawns one row higher.
pub open spec fn spec_spawn_position(t: PieceType) -> (i32, i32) {
    match t {
        PieceType::I => (3i32, 19i32),
        _ => (3i32, 20i32),
    }
}

/// The four occupied cells of a shape in a given rotation, as (column, row)
/// coordinates relative to the 4x4 bounding window.
pub open spec fn blocks_of(t: PieceType, r: int) -> Seq<(int, int)> {
    match t {
        PieceType::I => if r == 0 {
            seq![(0, 1), (1, 1), (2, 1), (3, 1)]
        } else if r == 1 {
            seq![(2, 0), (2, 1), (2, 2), (2, 3)]
        } else if r == 2 {
            seq![(0, 2), (1, 2), (2, 2), (3, 2)]
        } else {
            seq![(1, 0), (1, 1), (1, 2), (1, 3)]
        },
        PieceType::O => seq![(1, 1), (2, 1), (1, 2), (2, 2)],
        PieceType::T => if r == 0 {
            seq![(1, 0), (0, 1), (1, 1), (2, 1)]
        } else if r == 1 {
            seq![(1, 0), (1, 1), (1, 2), (2, 1)]
        } else if r == 2 {
            seq![(0, 1), (1, 1), (2, 1), (1, 2)]
        } else {
            seq![(1, 0), (0, 1), (1, 1), (1, 2)]
        },
        PieceType::S => if r == 0 {
            seq![(1, 0), (2, 0), (0, 1), (1, 1)]
        } else if r == 1 {
            seq![(1, 0), (1, 1), (2, 1), (2, 2)]
        } else if r == 2 {
            seq![(1, 1), (2, 1), (0, 2), (1, 2)]
        } else {
            seq![(0, 0), (0, 1), (1, 1), (1, 2)]
        },
        PieceType::Z => if r == 0 {
            seq![(0, 0), (1, 0), (1, 1), (2, 1)]
        } else if r == 1 {
            seq![(2, 0), (1, 1), (2, 1), (1, 2)]
        } else if r == 2 {
            seq![(0, 1), (1, 1), (1, 2), (2, 2)]
        } else {
            seq![(1, 0), (0, 1), (1, 1), (0, 2)]
        },
        PieceType::J => if r == 0 {
            seq![(0, 0), (0, 1), (1, 1), (2, 1)]
        } else if r == 1 {
            seq![(1, 0), (2, 0), (1, 1), (1, 2)]
        } else if r == 2 {
            seq![(0, 1), (1, 1), (2, 1), (2, 2)]
        } else {
            seq![(1, 0), (1, 1), (1, 2), (0, 2)]
        },
        PieceType::L => if r == 0 {
            seq![(2, 0), (0, 1), (1, 1), (2, 1)]
        } else if r == 1 {
            seq![(1, 0), (1, 1), (1, 2), (2, 2)]
        } else if r == 2 {
            seq![(0, 1), (1, 1), (2, 1), (0, 2)]
        } else {
            seq![(0, 0), (1, 0), (1, 1), (1, 2)]
        },
    }
}

/// Every shape has exactly four blocks, each within the 4x4 window.
pub proof fn lemma_blocks_bounds(t: PieceType, r: int)
    requires
        0 <= r < 4,
    ensures
        blocks_of(t, r).len() == 4,
        forall|k: int| 0 <= k < 4 ==> 0 <= #[trigger] blocks_of(t, r)[k].0 <= 3,
        forall|k: int| 0 <= k < 4 ==> 0 <= #[trigger] blocks_of(t, r)[k].1 <= 3,
{
}

/// A horizontal offset is valid for a rotation when all four occupied
/// columns land within the board's width.
pub open spec fn offset_valid(t: PieceType, r: int, x: int) -> bool {
    0 <= r < 4 && forall|k: int| 0 <= k < 4 ==> 0 <= x + #[trigger] blocks_of(t, r)[k].0 < 10
}

/// Occupancy mask of window row `j`, folding in the first `k` blocks.
pub open spec fn window_row_bits(bs: Seq<(int, int)>, x: int, j: int, k: int) -> u16
    decreases k,
{
    if k <= 0 {
        0u16
    } else {
        let b = bs[k - 1];
        if b.1 == j && 0 <= x + b.0 < 16 {
            window_row_bits(bs, x, j, k - 1) | (1u16 << ((x + b.0) as u16))
        } else {
            window_row_bits(bs, x, j, k - 1)
        }
    }
}

/// The geometry entry for (shape, rotation, column offset): the 4-row
/// relative occupancy window, or `None` when the offset is invalid.
pub open spec fn mask_spec(t: PieceType, r: int, x: int) -> Option<Seq<u16>> {
    if offset_valid(t, r, x) {
        Some(
            seq![
                window_row_bits(blocks_of(t, r), x, 0, 4),
                window_row_bits(blocks_of(t, r), x, 1, 4),
                window_row_bits(blocks_of(t, r), x, 2, 4),
                window_row_bits(blocks_of(t, r), x, 3, 4),
            ],
        )
    } else {
        None
    }
}

proof fn lemma_fold_keeps_bit(bs: Seq<(int, int)>, x: int, j: int, k: int)
    requires
        1 <= k,
        bs[0].1 == j,
        0 <= x + bs[0].0 < 16,
    ensures
        window_row_bits(bs, x, j, k) & (1u16 << ((x + bs[0].0) as u16)) != 0,
    decreases k,
{
    let s = (x + bs[0].0) as u16;
    if k == 1 {
        assert(window_row_bits(bs, x, j, 0) == 0u16);
        assert((0u16 | (1u16 << s)) & (1u16 << s) != 0) by (bit_vector)
            requires
                s < 16,
        ;
    } else {
        lemma_fold_keeps_bit(bs, x, j, k - 1);
        let z = window_row_bits(bs, x, j, k - 1);
        let b = bs[k - 1];
        if b.1 == j && 0 <= x + b.0 < 16 {
            let w = (1u16 << ((x + b.0) as u16));
            assert(z & (1u16 << s) != 0 ==> (z | w) & (1u16 << s) != 0) by (bit_vector);
        }
    }
}

/// A geometry entry is never all-empty: the window row holding the shape's
/// first block has at least one bit set.
pub proof fn lemma_mask_has_block_row(t: PieceType, r: int, x: int)
    requires
        offset_valid(t, r, x),
    ensures
        exists|j: int| 0 <= j < 4 && #[trigger] mask_spec(t, r, x)->0[j] != 0,
{
    lemma_blocks_bounds(t, r);
    let bs = blocks_of(t, r);
    let j = bs[0].1;
    assert(0 <= x + bs[0].0 < 10);
    lemma_fold_keeps_bit(bs, x, j, 4);
    let wrb = window_row_bits(bs, x, j, 4);
    let s = (x + bs[0].0) as u16;
    assert(wrb & (1u16 << s) != 0 ==> wrb != 0) by (bit_vector);
    assert(mask_spec(t, r, x)->0[j] == wrb);
    assert(mask_spec(t, r, x)->0[j] != 0);
}

impl PieceType {
    /// Decodes a shape id; out-of-range values yield `None`.
    pub fn from_i32(value: i32) -> (r: Option<PieceType>)
        ensures
            r == spec_from_i32(value),
    {
        match value {
            0 => Some(PieceType::I),
            1 => Some(PieceType::O),
            2 => Some(PieceType::T),
            3 => Some(PieceType::S),
            4 => Some(PieceType::Z),
            5 => Some(PieceType::J),
            6 => Some(PieceType::L),
            _ => None,
        }
    }

    /// Canonical spawn pose; the I piece spawns one row higher than the rest.
    pub fn spawn_position(&self) -> (r: (i32, i32))
        ensures
            r == spec_spawn_position(*self),
    {
        match self {
            PieceType::I => (3, 19),
            _ => (3, 20),
        }
    }
}

/// The four blocks of a rotation as executable coordinates.
fn rotation_blocks(t: PieceType, r: usize) -> (bs: [(i32, i32); 4])
    requires
        r < 4,
    ensures
        forall|k: int|
            0 <= k < 4 ==> bs@[k].0 == #[trigger] blocks_of(t, r as int)[k].0 && bs@[k].1
                == blocks_of(t, r as int)[k].1,
{
    match t {
        PieceType::I => {
            if r == 0 {
                [(0, 1), (1, 1), (2, 1), (3, 1)]
            } else if r == 1 {
                [(2, 0), (2, 1), (2, 2), (2, 3)]
            } else if r == 2 {
                [(0, 2), (1, 2), (2, 2), (3, 2)]
            } else {
                [(1, 0), (1, 1), (1, 2), (1, 3)]
            }
        },
        PieceType::O => [(1, 1), (2, 1), (1, 2), (2, 2)],
        PieceType::T => {
            if r == 0 {
                [(1, 0), (0, 1), (1, 1), (2, 1)]
            } else if r == 1 {
                [(1, 0), (1, 1), (1, 2), (2, 1)]
            } else if r == 2 {
                [(0, 1), (1, 1), (2, 1), (1, 2)]
            } else {
                [(1, 0), (0, 1), (1, 1), (1, 2)]
            }
        },
        PieceType::S => {
            if r == 0 {
                [(1, 0), (2, 0), (0, 1), (1, 1)]
            } else if r == 1 {
                [(1, 0), (1, 1), (2, 1), (2, 2)]
            } else if r == 2 {
                [(1, 1), (2, 1), (0, 2), (1, 2)]
            } else {
                [(0, 0), (0, 1), (1, 1), (1, 2)]
            }
        },
        PieceType::Z => {
            if r == 0 {
                [(0, 0), (1, 0), (1, 1), (2, 1)]
            } else if r == 1 {
                [(2, 0), (1, 1), (2, 1), (1, 2)]
            } else if r == 2 {
                [(0, 1), (1, 1), (1, 2), (2, 2)]
            } else {
                [(1, 0), (0, 1), (1, 1), (0, 2)]
            }
        },
        PieceType::J => {
            if r == 0 {
                [(0, 0), (0, 1), (1, 1), (2, 1)]
            } else if r == 1 {
                [(1, 0), (2, 0), (1, 1), (1, 2)]
            } else if r == 2 {
                [(0, 1), (1, 1), (2, 1), (2, 2)]
            } else {
                [(1, 0), (1, 1), (1, 2), (0, 2)]
            }
        },
        PieceType::L => {
            if r == 0 {
                [(2, 0), (0, 1), (1, 1), (2, 1)]
            } else if r == 1 {
                [(1, 0), (1, 1), (1, 2), (2, 2)]
            } else if r == 2 {
                [(0, 1), (1, 1), (2, 1), (0, 2)]
            } else {
                [(0, 0), (1, 0), (1, 1), (1, 2)]
            }
        },
    }
}

/// A transient piece value: shape, horizontal and vertical offsets, and a
/// rotation index.
#[derive(Clone, Copy, Debug, Eq, PartialEq, Hash, Structural)]
pub struct Piece {
    pub piece_type: PieceType,
    pub x: i32,
    pub y: i32,
    pub rotation: usize,
}

/// `moved` at the specification level.
pub open spec fn spec_moved(p: Piece, dx: int, dy: int) -> Piece {
    Piece { x: (p.x + dx) as i32, y: (p.y + dy) as i32, ..p }
}

/// `rotated` at the specification level.
pub open spec fn spec_rotated(p: Piece, clockwise: bool) -> Piece {
    Piece {
        rotation: if clockwise {
            ((p.rotation + 1) % 4) as usize
        } else {
            ((p.rotation + 3) % 4) as usize
        },
        ..p
    }
}

impl Piece {
    pub fn new(piece_type: PieceType, x: i32, y: i32) -> (p: Piece)
        ensures
            p == (Piece { piece_type, x, y, rotation: 0usize }),
    {
        Self { piece_type, x, y, rotation: 0 }
    }

    pub fn spawn(piece_type: PieceType) -> (p: Piece)
        ensures
            p.piece_type == piece_type,
            p.rotation == 0usize,
            p.x == spec_spawn_position(piece_type).0,
            p.y == spec_spawn_position(piece_type).1,
    {
        let (x, y) = piece_type.spawn_position();
        Self::new(piece_type, x, y)
    }

    /// The geometry window for this piece's shape, rotation and column.
    pub fn get_mask(&self) -> (r: Option<[u16; 4]>)
        ensures
            (r is Some) == (mask_spec(self.piece_type, self.rotation as int, self.x as int)
                is Some),
            r is Some ==> r->0@ == mask_spec(
                self.piece_type,
                self.rotation as int,
                self.x as int,
            )->0,
    {
        if self.rotation >= 4 {
            return None;
        }
        let bs = rotation_blocks(self.piece_type, self.rotation);
        let mut k: usize = 0;
        while k < 4
            invariant
                k <= 4,
                self.rotation < 4,
                forall|j: int|
                    0 <= j < 4 ==> bs@[j].0 == #[trigger] blocks_of(
                        self.piece_type,
                        self.rotation as int,
                    )[j].0 && bs@[j].1 == blocks_of(self.piece_type, self.rotation as int)[j].1,
                forall|j: int|
                    0 <= j < k ==> 0 <= self.x + #[trigger] blocks_of(
                        self.piece_type,
                        self.rotation as int,
                    )[j].0 < 10,
            decreases 4 - k,
        {
            let bx = bs[k].0;
            let cx = self.x as i64 + bx as i64;
            if cx < 0 || cx >= 10 {
                proof {
                    assert(!(0 <= self.x + blocks_of(
                        self.piece_type,
                        self.rotation as int,
                    )[k as int].0 < 10));
                    assert(!offset_valid(self.piece_type, self.rotation as int, self.x as int));
                }
                return None;
            }
            k += 1;
        }
        proof {
            assert(offset_valid(self.piece_type, self.rotation as int, self.x as int));
            lemma_blocks_bounds(self.piece_type, self.rotation as int);
        }
        let mut mask = [0u16; 4];
        let mut k: usize = 0;
        while k < 4
            invariant
                k <= 4,
                self.rotation < 4,
                offset_valid(self.piece_type, self.rotation as int, self.x as int),
                forall|j: int|
                    0 <= j < 4 ==> bs@[j].0 == #[trigger] blocks_of(
                        self.piece_type,
                        self.rotation as int,
                    )[j].0 && bs@[j].1 == blocks_of(self.piece_type, self.rotation as int)[j].1,
                forall|k2: int|
                    0 <= k2 < 4 ==> 0 <= #[trigger] blocks_of(
                        self.piece_type,
                        self.rotation as int,
                    )[k2].1 <= 3 && 0 <= blocks_of(self.piece_type, self.rotation as int)[k2].0
                        <= 3,
                mask@.len() == 4,
                forall|j: int|
                    0 <= j < 4 ==> mask@[j] == window_row_bits(
                        blocks_of(self.piece_type, self.rotation as int),
                        self.x as int,
                        j,
                        k as int,
                    ),
            decreases 4 - k,
        {
            let bx = bs[k].0;
            let by = bs[k].1;
            proof {
                assert(0 <= self.x + blocks_of(
                    self.piece_type,
                    self.rotation as int,
                )[k as int].0 < 10);
            }
            let cx = self.x + bx;
            mask[by as usize] = mask[by as usize] | (1u16 << (cx as u16));
            k += 1;
        }
        proof {
            assert(mask@ =~= mask_spec(self.piece_type, self.rotation as int, self.x as int)->0);
        }
        Some(mask)
    }

    /// The same piece with another rotation index.
    pub fn with_rotation(&self, rotation: usize) -> (p: Piece)
        ensures
            p == (Piece { rotation, ..*self }),
    {
        Self { rotation, ..*self }
    }

    /// The piece translated by (dx, dy).
    pub fn moved(&self, dx: i32, dy: i32) -> (p: Piece)
        requires
            i32::MIN <= self.x + dx <= i32::MAX,
            i32::MIN <= self.y + dy <= i32::MAX,
        ensures
            p == spec_moved(*self, dx as int, dy as int),
    {
        Self { x: self.x + dx, y: self.y + dy, ..*self }
    }

    /// The piece rotated one step clockwise or counterclockwise.
    pub fn rotated(&self, clockwise: bool) -> (p: Piece)
        requires
            self.rotation < 4,
        ensures
            p == spec_rotated(*self, clockwise),
            p.rotation < 4,
    {
        let new_rotation: usize = if clockwise {
            (self.rotation + 1) % 4
        } else {
            (self.rotation + 3) % 4
        };
        Self { rotation: new_rotation, ..*self }
    }
}

/// A resolved candidate resting pose: column, landing row, rotation.
#[derive(Clone, Copy, Debug, PartialEq, Eq, Hash, Structural)]
pub struct Placement {
    pub x: i32,
    pub y: i32,
    pub rotation: usize,
}

impl Placement {
    pub fn new(x: i32, y: i32, rotation: usize) -> (p: Placement)
        ensures
            p == (Placement { x, y, rotation }),
    {
        Self { x, y, rotation }
    }
}

impl Default for Placement {
    fn default() -> (p: Self)
        ensures
            p == (Placement { x: 0i32, y: 0i32, rotation: 0usize }),
    {
        Self { x: 0, y: 0, rotation: 0 }
    }
}

} // verus!
