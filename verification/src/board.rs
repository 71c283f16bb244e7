//! The board: a fixed 21x12 grid of cell states. A cell is 0 (empty),
//! 1 (permanent wall or floor) or `2 + color` (settled piece fragment).

use vstd::prelude::*;

verus! {

broadcast use vstd::array::group_array_axioms;

/// Number of board columns.
pub const BOARD_X_LEN: usize = 12;

/// Smallest board column index.
pub const BOARD_X_MIN: usize = 0;

/// Largest board column index (the right wall).
pub const BOARD_X_MAX: usize = BOARD_X_LEN - 1;

/// Number of board rows.
pub const BOARD_Y_LEN: usize = 21;

/// Smallest board row index.
pub const BOARD_Y_MIN: usize = 0;

/// Largest board row index (the floor).
pub const BOARD_Y_MAX: usize = BOARD_Y_LEN - 1;

/// The walls, floor and settled fragments of the game, as one grid.
pub struct Piles {
    pub pattern: [[u8; BOARD_X_LEN]; BOARD_Y_LEN],
}

impl View for Piles {
    type V = Seq<Seq<u8>>;

    open spec fn view(&self) -> Seq<Seq<u8>> {
        Seq::new(21, |y: int| Seq::new(12, |x: int| self.pattern[y][x]))
    }
}

/// A board view of the fixed dimensions: 21 rows of 12 cells.
pub open spec fn board_dims(board: Seq<Seq<u8>>) -> bool {
    board.len() == 21 && forall|y: int| 0 <= y < 21 ==> (#[trigger] board[y]).len() == 12
}

/// The border invariant: column 0, the last column and the last row hold the
/// permanent wall/floor value 1.
pub open spec fn borders_walled(board: Seq<Seq<u8>>) -> bool {
    forall|x: int, y: int|
        0 <= x < 12 && 0 <= y < 21 && (x == 0 || x == 11 || y == 20) ==> #[trigger] board[y][x]
            == 1
}

/// Whether board coordinate `(x, y)` blocks the piece: any cell outside the
/// grid counts as permanently filled, so collision tests never index outside
/// it; a cell inside the grid blocks when its value is at least 1.
pub open spec fn cell_filled(board: Seq<Seq<u8>>, x: int, y: int) -> bool {
    if 0 <= x < 12 && 0 <= y < 21 {
        board[y][x] >= 1
    } else {
        true
    }
}

/// Whether interior row `y` is completely filled: every non-border column
/// holds a wall or fragment value.
pub open spec fn row_filled(board: Seq<Seq<u8>>, y: int) -> bool {
    forall|x: int| 1 <= x <= 10 ==> #[trigger] board[y][x] >= 1
}

impl Piles {
    /// An entirely empty board, without even walls and floor.
    pub fn new() -> (r: Piles)
        ensures
            board_dims(r@),
            forall|x: int, y: int| 0 <= x < 12 && 0 <= y < 21 ==> #[trigger] r@[y][x] == 0,
    {
        Piles { pattern: [[0u8; 12]; 21] }
    }

    /// Write the permanent border value 1 into column 0, the last column and
    /// the last row; all other cells keep their value.
    pub fn setup_wall_and_floor(&mut self)
        ensures
            forall|x: int, y: int|
                0 <= x < 12 && 0 <= y < 21 ==> #[trigger] final(self)@[y][x] == if (x == 0 || x
                    == 11 || y == 20) {
                    1u8
                } else {
                    old(self)@[y][x]
                },
            borders_walled(final(self)@),
    {
        let mut i: usize = 0;
        while i < 21
            invariant
                i <= 21,
                forall|x: int, y: int|
                    0 <= x < 12 && 0 <= y < 21 ==> #[trigger] self@[y][x] == if ((x == 0 || x
                        == 11) && y < i) {
                        1u8
                    } else {
                        old(self)@[y][x]
                    },
            decreases 21 - i,
        {
            let ghost prev = *self;
            let mut row = self.pattern[i];
            row[0] = 1;
            row[11] = 1;
            self.pattern[i] = row;
            i += 1;
            assert forall|x: int, y: int| 0 <= x < 12 && 0 <= y < 21 implies #[trigger] self@[y][x]
                == if ((x == 0 || x == 11) && y < i) {
                1u8
            } else {
                old(self)@[y][x]
            } by {
                assert(prev@[y][x] == if ((x == 0 || x == 11) && y < i - 1) {
                    1u8
                } else {
                    old(self)@[y][x]
                });
            }
        }
        let mut j: usize = 0;
        while j < 12
            invariant
                j <= 12,
                forall|x: int, y: int|
                    0 <= x < 12 && 0 <= y < 21 ==> #[trigger] self@[y][x] == if (y == 20 && x < j) {
                        1u8
                    } else if (x == 0 || x == 11) {
                        1u8
                    } else {
                        old(self)@[y][x]
                    },
            decreases 12 - j,
        {
            let ghost prev = *self;
            let mut row = self.pattern[20];
            row[j] = 1;
            self.pattern[20] = row;
            j += 1;
            assert forall|x: int, y: int| 0 <= x < 12 && 0 <= y < 21 implies #[trigger] self@[y][x]
                == if (y == 20 && x < j) {
                1u8
            } else if (x == 0 || x == 11) {
                1u8
            } else {
                old(self)@[y][x]
            } by {
                assert(prev@[y][x] == if (y == 20 && x < j - 1) {
                    1u8
                } else if (x == 0 || x == 11) {
                    1u8
                } else {
                    old(self)@[y][x]
                });
            }
        }
    }

    /// True when the cell exists and holds a wall, floor or fragment value.
    pub fn is_filled(&self, x: usize, y: usize) -> (r: bool)
        requires
            x < 12,
            y < 21,
        ensures
            r == (self@[y as int][x as int] >= 1),
    {
        self.pattern[y][x] >= 1
    }

    /// True when column 0, the last column and the last row all hold the
    /// permanent wall/floor value 1.
    pub fn has_walled_borders(&self) -> (r: bool)
        ensures
            r == borders_walled(self@),
    {
        let mut y: usize = 0;
        while y < 21
            invariant
                y <= 21,
                forall|b: int| 0 <= b < y ==> (#[trigger] self@[b][0]) == 1 && self@[b][11] == 1,
            decreases 21 - y,
        {
            proof {
                assert(self@[y as int][0] == self.pattern[y as int][0]);
                assert(self@[y as int][11] == self.pattern[y as int][11]);
            }
            if !(self.pattern[y][0] == 1 && self.pattern[y][11] == 1) {
                return false;
            }
            y += 1;
        }
        let mut x: usize = 0;
        while x < 12
            invariant
                x <= 12,
                forall|b: int| 0 <= b < 21 ==> (#[trigger] self@[b][0]) == 1 && self@[b][11] == 1,
                forall|a: int| 0 <= a < x ==> (#[trigger] self@[20][a]) == 1,
            decreases 12 - x,
        {
            proof {
                assert(self@[20][x as int] == self.pattern[20][x as int]);
            }
            if self.pattern[20][x] != 1 {
                return false;
            }
            x += 1;
        }
        assert forall|x: int, y: int|
            0 <= x < 12 && 0 <= y < 21 && (x == 0 || x == 11 || y == 20) implies #[trigger] self@[y][x]
            == 1 by {
            if x == 0 || x == 11 {
                assert(self@[y][0] == 1 && self@[y][11] == 1);
            } else {
                assert(self@[20][x] == 1);
            }
        }
        true
    }

    /// True when interior row `y` is completely filled.
    pub fn is_row_filled(&self, y: usize) -> (r: bool)
        requires
            y < 21,
        ensures
            r == row_filled(self@, y as int),
    {
        let mut x: usize = 1;
        while x <= 10
            invariant
                1 <= x <= 11,
                y < 21,
                forall|c: int| 1 <= c < x ==> #[trigger] self@[y as int][c] >= 1,
            decreases 11 - x,
        {
            if !self.is_filled(x, y) {
                return false;
            }
            x += 1;
        }
        true
    }
}

} // verus!
