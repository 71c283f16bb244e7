//! The falling piece: shape identifier, board position of the top-left corner
//! of its 5x5 bounding box, applied quarter-turn count and color tag.

use vstd::prelude::*;

use crate::rng::rng_gen_range;
use crate::shape::base_cell;
use crate::shape::lemma_mask_witness;
use crate::shape::mask_cell;
use crate::shape::Pattern;
use crate::shape::Shape;

verus! {

/// A position measured in board cells.
#[derive(Debug, Clone, Copy, PartialEq, Eq, Structural)]
pub struct PosInCell {
    pub x: i32,
    pub y: i32,
}

impl PosInCell {
    /// The cell position with the given coordinates.
    pub fn new(x: i32, y: i32) -> (r: PosInCell)
        ensures
            r.x == x && r.y == y,
    {
        PosInCell { x, y }
    }
}

/// One piece instance. `(x, y)` is the board-cell coordinate of the top-left
/// corner of its 5x5 bounding box; `rot` counts applied quarter turns.
#[derive(Debug, Clone, Copy, PartialEq, Eq, Structural)]
pub struct Block {
    pub x: i32,
    pub y: i32,
    pub shape: Shape,
    pub rot: i8,
    pub color: u8,
}

/// Whether the piece `b`, placed at its position, occupies board cell
/// `(x, y)`.
pub open spec fn block_occupies(b: Block, x: int, y: int) -> bool {
    &&& 0 <= x - b.x < 5
    &&& 0 <= y - b.y < 5
    &&& mask_cell(b.shape, b.rot as int, y - b.y, x - b.x)
}

/// The fields of the piece that geometry depends on are in range: at most
/// three quarter turns and one of the three color tags.
pub open spec fn block_fields_ok(b: Block) -> bool {
    &&& 0 <= b.rot < 4
    &&& 0 <= b.color < 3
}

/// Every occupied cell of the piece lies strictly inside the board frame:
/// within columns 1..=10 and rows 0..=19 of the 21x12 board, off the
/// permanent walls and floor.
pub open spec fn in_frame(b: Block) -> bool {
    forall|i: int, j: int|
        0 <= i < 5 && 0 <= j < 5 && #[trigger] mask_cell(b.shape, b.rot as int, i, j) ==> 1 <= b.x
            + j <= 10 && 0 <= b.y + i <= 19
}

/// A well-formed active piece.
pub open spec fn block_wf(b: Block) -> bool {
    block_fields_ok(b) && in_frame(b)
}

/// A piece freshly generated for the queue: bounding box origin at the spawn
/// cell (4, 0), spawn orientation, color tag determined by the spawn count.
pub open spec fn spawned_block(s: Shape, count: int) -> Block {
    Block { x: 4, y: 0, shape: s, rot: 0, color: (count % 3) as u8 }
}

/// A piece whose occupied cells all lie inside the frame has its bounding
/// box origin within a fixed window, since every rotated mask occupies a
/// cell with both indices in 1..=3.
pub proof fn lemma_in_frame_bounds(b: Block)
    requires
        0 <= b.rot < 4,
        in_frame(b),
    ensures
        -2 <= b.x <= 9,
        -3 <= b.y <= 19,
{
    lemma_mask_witness(b.shape, b.rot as int);
    let (i, j): (int, int) = choose|i: int, j: int|
        1 <= i <= 3 && 1 <= j <= 3 && #[trigger] mask_cell(b.shape, b.rot as int, i, j);
    assert(1 <= b.x + j <= 10 && 0 <= b.y + i <= 19);
}

/// Spawn placement: a piece whose bounding box origin is the spawn cell
/// (4, 0) and that is in its spawn orientation occupies only cells in
/// columns 5..=7 and rows 1..=4, strictly inside the board frame.
pub proof fn lemma_spawn_in_frame(b: Block)
    requires
        b.x == 4,
        b.y == 0,
        b.rot == 0,
    ensures
        in_frame(b),
        forall|i: int, j: int|
            0 <= i < 5 && 0 <= j < 5 && #[trigger] mask_cell(b.shape, b.rot as int, i, j) ==> 5
                <= b.x + j <= 7 && 1 <= b.y + i <= 4,
{
    assert forall|i: int, j: int|
        0 <= i < 5 && 0 <= j < 5 && #[trigger] mask_cell(b.shape, b.rot as int, i, j) implies 5
        <= b.x + j <= 7 && 1 <= b.y + i <= 4 by {
        assert(mask_cell(b.shape, 0, i, j) == base_cell(b.shape, i, j));
        assert(base_cell(b.shape, i, j) ==> 1 <= i <= 4 && 1 <= j <= 3);
    }
}

impl Block {
    /// A piece with every field zeroed: shape `S0` at the origin.
    pub fn new() -> (r: Block)
        ensures
            r.x == 0 && r.y == 0 && r.shape == Shape::S0 && r.rot == 0 && r.color == 0,
    {
        Block { x: 0, y: 0, shape: Shape::S0, rot: 0, color: 0 }
    }

    /// The current occupancy mask of the piece: the base mask of its shape
    /// rotated `rot` quarter turns.
    pub fn get_pattern(&self) -> (r: Pattern)
        requires
            0 <= self.rot < 4,
        ensures
            forall|i: int, j: int|
                0 <= i < 5 && 0 <= j < 5 ==> ((#[trigger] r[i][j] == 1) == mask_cell(
                    self.shape,
                    self.rot as int,
                    i,
                    j,
                )) && (r[i][j] == 0 || r[i][j] == 1),
    {
        let base = self.shape.get_base_pattern();
        let mut result = base;
        let mut k: i8 = 0;
        while k < self.rot
            invariant
                0 <= k <= self.rot < 4,
                forall|i: int, j: int|
                    0 <= i < 5 && 0 <= j < 5 ==> ((#[trigger] result[i][j] == 1) == mask_cell(
                        self.shape,
                        k as int,
                        i,
                        j,
                    )) && (result[i][j] == 0 || result[i][j] == 1),
            decreases self.rot - k,
        {
            result = Block::rotate_pattern(result);
            k += 1;
        }
        result
    }

    /// One quarter turn of a mask: the result holds `base[i][j]` at cell
    /// `(4 - j, i)`.
    pub fn rotate_pattern(base: Pattern) -> (r: Pattern)
        ensures
            forall|a: int, b: int| 0 <= a < 5 && 0 <= b < 5 ==> #[trigger] r[a][b] == base[b][4
                - a],
    {
        let mut result: Pattern = [[0u8; 5]; 5];
        let mut a: usize = 0;
        while a < 5
            invariant
                a <= 5,
                forall|p: int, q: int|
                    0 <= p < a && 0 <= q < 5 ==> #[trigger] result[p][q] == base[q][4 - p],
            decreases 5 - a,
        {
            let mut row: [u8; 5] = [0u8; 5];
            let mut b: usize = 0;
            while b < 5
                invariant
                    b <= 5,
                    a < 5,
                    forall|q: int| 0 <= q < b ==> #[trigger] row[q] == base[q][4 - a],
                decreases 5 - b,
            {
                row[b] = base[b][4 - a];
                b += 1;
            }
            result[a] = row;
            a += 1;
        }
        result
    }

    /// Apply one quarter turn: counter-clockwise for a positive direction,
    /// clockwise otherwise; the turn count stays in 0..=3.
    pub fn rotate(&mut self, dir: i32)
        requires
            0 <= old(self).rot < 4,
        ensures
            final(self).rot == if dir > 0 {
                (old(self).rot + 1) % 4
            } else {
                (old(self).rot + 3) % 4
            },
            final(self).x == old(self).x,
            final(self).y == old(self).y,
            final(self).shape == old(self).shape,
            final(self).color == old(self).color,
    {
        if dir > 0 {
            self.rot = (self.rot + 1) % 4;
        } else {
            self.rot = (self.rot + 3) % 4;
        }
    }

    /// Unconditional translation; bounds and collision are the caller's
    /// responsibility.
    pub fn move_by_delta(&mut self, x_delta: i32, y_delta: i32)
        requires
            i32::MIN <= old(self).x + x_delta <= i32::MAX,
            i32::MIN <= old(self).y + y_delta <= i32::MAX,
        ensures
            final(self).x == old(self).x + x_delta,
            final(self).y == old(self).y + y_delta,
            final(self).shape == old(self).shape,
            final(self).rot == old(self).rot,
            final(self).color == old(self).color,
    {
        self.x = self.x + x_delta;
        self.y = self.y + y_delta;
    }

    /// A fresh piece for the queue: placed at the spawn cell in spawn
    /// orientation, with a shape drawn uniformly from the catalog and the
    /// color tag `created_count % 3`.
    pub(crate) fn create_randomly(rng: &mut rand::rngs::StdRng, created_count: u32) -> (r: Block)
        ensures
            r == spawned_block(r.shape, created_count as int),
    {
        let mut block = Block::new();
        block.x = 4;
        block.y = 0;
        block.shape = Shape::from_i32(rng_gen_range(rng, 0, Shape::max()));
        block.color = (created_count % 3) as u8;
        block
    }
}

} // verus!
