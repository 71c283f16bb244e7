//! The shape catalog: seven piece geometries, each a 5x5 binary occupancy
//! mask in a canonical spawn orientation, plus a pure quarter-turn transform.

use vstd::prelude::*;

verus! {

/// One of the seven piece shapes of the catalog.
#[derive(Debug, Clone, Copy, PartialEq, Eq, Structural)]
pub enum Shape {
    S0,
    S1,
    S2,
    S3,
    S4,
    S5,
    S6,
}

/// A 5x5 occupancy mask; a cell is 0 (empty) or 1 (occupied).
pub type Pattern = [[u8; 5]; 5];

/// The numeric identifier of a shape, as drawn by the generator.
pub open spec fn shape_index(s: Shape) -> int {
    match s {
        Shape::S0 => 0,
        Shape::S1 => 1,
        Shape::S2 => 2,
        Shape::S3 => 3,
        Shape::S4 => 4,
        Shape::S5 => 5,
        Shape::S6 => 6,
    }
}

/// Occupancy of shape `s` in its spawn orientation at mask cell `(i, j)`
/// (row `i`, column `j`). Every base mask occupies only rows 1..=4 and
/// columns 1..=3 of the 5x5 box, and always occupies cell (1, 2).
pub open spec fn base_cell(s: Shape, i: int, j: int) -> bool {
    match s {
        Shape::S0 => j == 2 && 1 <= i <= 4,
        Shape::S1 => (j == 2 && 1 <= i <= 3) || (i == 3 && j == 3),
        Shape::S2 => (j == 2 && 1 <= i <= 3) || (i == 3 && j == 1),
        Shape::S3 => 1 <= i <= 2 && 2 <= j <= 3,
        Shape::S4 => (i == 1 && j == 2) || (i == 2 && 1 <= j <= 3),
        Shape::S5 => (i == 1 && 2 <= j <= 3) || (i == 2 && 1 <= j <= 2),
        Shape::S6 => (i == 1 && 1 <= j <= 2) || (i == 2 && 2 <= j <= 3),
    }
}

/// Occupancy of shape `s` after `r` quarter turns at mask cell `(i, j)`.
/// One quarter turn maps the base mask `m` to the mask `m'` with
/// `m'[4 - j][i] == m[i][j]`, i.e. `m'[a][b] == m[b][4 - a]`.
pub open spec fn mask_cell(s: Shape, r: int, i: int, j: int) -> bool
    decreases r,
{
    if r <= 0 {
        base_cell(s, i, j)
    } else {
        mask_cell(s, r - 1, j, 4 - i)
    }
}

/// Rotation is a group of order four: applying the quarter-turn transform
/// four times to any occupancy mask of the catalog yields the original mask.
pub proof fn lemma_rotation_order_four(s: Shape, r: int, i: int, j: int)
    requires
        r >= 0,
        0 <= i < 5,
        0 <= j < 5,
    ensures
        mask_cell(s, r + 4, i, j) == mask_cell(s, r, i, j),
{
    assert(mask_cell(s, r + 4, i, j) == mask_cell(s, r + 3, j, 4 - i));
    assert(mask_cell(s, r + 3, j, 4 - i) == mask_cell(s, r + 2, 4 - i, 4 - j));
    assert(mask_cell(s, r + 2, 4 - i, 4 - j) == mask_cell(s, r + 1, 4 - j, i));
    assert(mask_cell(s, r + 1, 4 - j, i) == mask_cell(s, r, i, j));
}

/// Each rotated mask occupies a known witness cell: the base masks all occupy
/// cell (1, 2), and its orbit under quarter turns is (2, 1), (3, 2), (2, 3).
pub proof fn lemma_mask_witness(s: Shape, r: int)
    requires
        0 <= r < 4,
    ensures
        exists|i: int, j: int|
            1 <= i <= 3 && 1 <= j <= 3 && #[trigger] mask_cell(s, r, i, j),
{
    assert(base_cell(s, 1, 2));
    assert(mask_cell(s, 0, 1, 2) == base_cell(s, 1, 2));
    assert(mask_cell(s, 1, 2, 1) == mask_cell(s, 0, 1, 2));
    assert(mask_cell(s, 2, 3, 2) == mask_cell(s, 1, 2, 1));
    assert(mask_cell(s, 3, 2, 3) == mask_cell(s, 2, 3, 2));
    if r == 0 {
        assert(mask_cell(s, 0, 1, 2));
    } else if r == 1 {
        assert(mask_cell(s, 1, 2, 1));
    } else if r == 2 {
        assert(mask_cell(s, 2, 3, 2));
    } else {
        assert(mask_cell(s, 3, 2, 3));
    }
}

impl Shape {
    /// The largest shape identifier.
    pub fn max() -> (r: i32)
        ensures
            r == 6,
    {
        6
    }

    /// The shape with identifier `n`.
    pub fn from_i32(n: i32) -> (s: Shape)
        requires
            0 <= n <= 6,
        ensures
            shape_index(s) == n,
    {
        match n {
            0 => Shape::S0,
            1 => Shape::S1,
            2 => Shape::S2,
            3 => Shape::S3,
            4 => Shape::S4,
            5 => Shape::S5,
            _ => Shape::S6,
        }
    }

    /// Whether the base mask of this shape occupies mask cell `(i, j)`.
    fn base_cell_at(&self, i: usize, j: usize) -> (r: bool)
        ensures
            r == base_cell(*self, i as int, j as int),
    {
        match self {
            Shape::S0 => j == 2 && 1 <= i && i <= 4,
            Shape::S1 => (j == 2 && 1 <= i && i <= 3) || (i == 3 && j == 3),
            Shape::S2 => (j == 2 && 1 <= i && i <= 3) || (i == 3 && j == 1),
            Shape::S3 => 1 <= i && i <= 2 && 2 <= j && j <= 3,
            Shape::S4 => (i == 1 && j == 2) || (i == 2 && 1 <= j && j <= 3),
            Shape::S5 => (i == 1 && 2 <= j && j <= 3) || (i == 2 && 1 <= j && j <= 2),
            Shape::S6 => (i == 1 && 1 <= j && j <= 2) || (i == 2 && 2 <= j && j <= 3),
        }
    }

    /// The occupancy mask of this shape in its spawn orientation.
    pub fn get_base_pattern(&self) -> (r: Pattern)
        ensures
            forall|i: int, j: int|
                0 <= i < 5 && 0 <= j < 5 ==> ((#[trigger] r[i][j] == 1) == base_cell(
                    *self,
                    i,
                    j,
                )) && (r[i][j] == 0 || r[i][j] == 1),
    {
        let mut result: Pattern = [[0u8; 5]; 5];
        let mut i: usize = 0;
        while i < 5
            invariant
                i <= 5,
                forall|a: int, b: int|
                    0 <= a < i && 0 <= b < 5 ==> ((#[trigger] result[a][b] == 1) == base_cell(
                        *self,
                        a,
                        b,
                    )) && (result[a][b] == 0 || result[a][b] == 1),
            decreases 5 - i,
        {
            let mut row: [u8; 5] = [0u8; 5];
            let mut j: usize = 0;
            while j < 5
                invariant
                    j <= 5,
                    forall|b: int|
                        0 <= b < j ==> ((#[trigger] row[b] == 1) == base_cell(*self, i as int, b))
                            && (row[b] == 0 || row[b] == 1),
                decreases 5 - j,
            {
                row[j] = if self.base_cell_at(i, j) {
                    1
                } else {
                    0
                };
                j += 1;
            }
            result[i] = row;
            i += 1;
        }
        result
    }
}

} // verus!
