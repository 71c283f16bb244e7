//! The engine: orchestrates the board, the active and queued pieces and the
//! tick/lock-delay counters, advancing exactly one discrete step per call.

use vstd::prelude::*;

use crate::block::block_occupies;
use crate::block::block_wf;
use crate::block::in_frame;
use crate::block::lemma_in_frame_bounds;
use crate::block::lemma_spawn_in_frame;
use crate::block::spawned_block;
use crate::block::Block;
use crate::board::board_dims;
use crate::board::borders_walled;
use crate::board::cell_filled;
use crate::board::row_filled;
use crate::board::Piles;
use crate::rng::rng_from_seed;
use crate::shape::mask_cell;
use crate::shape::Shape;

verus! {

/// One player command token, consumed once per tick.
#[derive(Debug, Clone, Copy, PartialEq, Eq, Structural)]
pub enum Command {
    Left,
    Right,
    Down,
    RotateLeft,
    RotateRight,
    Noop,
}

/// The mathematical model of the engine state: every field of `Game` except
/// the opaque random generator.
#[verifier::ext_equal]
pub struct GameView {
    pub is_over: bool,
    pub frame: int,
    pub settle_wait: int,
    pub board: Seq<Seq<u8>>,
    pub block: Block,
    pub next_block: Block,
    pub block_created_count: int,
}

/// The engine state: board, active piece, queued piece, counters and the
/// owned pseudo-random generator.
pub struct Game {
    pub rng: rand::rngs::StdRng,
    pub is_over: bool,
    pub frame: i32,
    pub settle_wait: u32,
    pub piles: Piles,
    pub block: Block,
    pub next_block: Block,
    pub block_created_count: u32,
}

impl View for Game {
    type V = GameView;

    open spec fn view(&self) -> GameView {
        GameView {
            is_over: self.is_over,
            frame: self.frame as int,
            settle_wait: self.settle_wait as int,
            board: self.piles@,
            block: self.block,
            next_block: self.next_block,
            block_created_count: self.block_created_count as int,
        }
    }
}

/// The collision primitive: the piece `b`, displaced by `(dx, dy)`, overlaps
/// a filled board cell (cells outside the grid count as filled).
pub open spec fn spec_collides(board: Seq<Seq<u8>>, b: Block, dx: int, dy: int) -> bool {
    exists|i: int, j: int|
        0 <= i < 5 && 0 <= j < 5 && #[trigger] mask_cell(b.shape, b.rot as int, i, j)
            && cell_filled(board, b.x + j + dx, b.y + i + dy)
}

/// The piece translated by `(dx, dy)`.
pub open spec fn block_moved(b: Block, dx: int, dy: int) -> Block {
    Block { x: (b.x + dx) as i32, y: (b.y + dy) as i32, ..b }
}

/// The piece after one quarter turn: counter-clockwise for a positive
/// direction, clockwise otherwise.
pub open spec fn block_rotated(b: Block, dir: int) -> Block {
    Block {
        rot: if dir > 0 {
            ((b.rot + 1) % 4) as i8
        } else {
            ((b.rot + 3) % 4) as i8
        },
        ..b
    }
}

/// The queued piece's spawn-placement fields, which the engine relies on
/// when it promotes the queued piece to active.
pub open spec fn next_block_wf(b: Block) -> bool {
    b.x == 4 && b.y == 0 && b.rot == 0 && 0 <= b.color < 3
}

/// The board with the piece's occupied cells written as settled fragments of
/// value `2 + color`.
pub open spec fn settled_board(board: Seq<Seq<u8>>, b: Block) -> Seq<Seq<u8>> {
    Seq::new(
        21,
        |y: int|
            Seq::new(
                12,
                |x: int|
                    if block_occupies(b, x, y) {
                        (2 + b.color) as u8
                    } else {
                        board[y][x]
                    },
            ),
    )
}

/// The state after the queued piece becomes active and a fresh piece of
/// shape `s` is queued.
pub open spec fn spawn_view(g: GameView, s: Shape) -> GameView {
    GameView {
        block: g.next_block,
        next_block: spawned_block(s, g.block_created_count),
        block_created_count: g.block_created_count + 1,
        ..g
    }
}

/// The lock-delay step of one tick: a running countdown is decremented; on
/// expiry, if the piece is still resting on support, it is settled into the
/// board and the queued piece spawns (drawing the fresh shape `s`);
/// otherwise locking is cancelled.
pub open spec fn lock_phase(g: GameView, s: Shape) -> GameView {
    if g.settle_wait > 0 {
        let g1 = GameView { settle_wait: g.settle_wait - 1, ..g };
        if g1.settle_wait == 0 && spec_collides(g.board, g.block, 0, 1) {
            spawn_view(GameView { board: settled_board(g.board, g.block), ..g1 }, s)
        } else {
            g1
        }
    } else {
        g
    }
}

/// The collision-guarded move: the translation applies only when the target
/// cells are free; after a downward attempt, a piece that rests on support
/// arms the lock-delay timer if it is not already running.
pub open spec fn try_move(g: GameView, dx: int, dy: int) -> GameView {
    let b1 = if !spec_collides(g.board, g.block, dx, dy) {
        block_moved(g.block, dx, dy)
    } else {
        g.block
    };
    let sw = if dy > 0 && g.settle_wait == 0 && spec_collides(g.board, b1, 0, 1) {
        15
    } else {
        g.settle_wait
    };
    GameView { block: b1, settle_wait: sw, ..g }
}

/// The collision-guarded rotation: the quarter turn applies unless the
/// rotated piece would overlap a filled cell, in which case the piece is
/// left as it was. There is no wall-kick search.
pub open spec fn try_rotate(g: GameView, dir: int) -> GameView {
    let b1 = block_rotated(g.block, dir);
    if spec_collides(g.board, b1, 0, 0) {
        g
    } else {
        GameView { block: b1, ..g }
    }
}

/// The command step of one tick.
pub open spec fn command_phase(g: GameView, cmd: Command) -> GameView {
    match cmd {
        Command::Right => try_move(g, 1, 0),
        Command::Left => try_move(g, -1, 0),
        Command::Down => try_move(g, 0, 1),
        Command::RotateLeft => try_rotate(g, 1),
        Command::RotateRight => try_rotate(g, -1),
        Command::Noop => g,
    }
}

/// The forced-gravity step: every 20 frames the piece is pushed down one
/// cell by a guarded move; if the piece cannot even occupy its slot the game
/// is over, and if it now rests on support the lock delay is refreshed to
/// the fixed 15 frames.
pub open spec fn gravity_phase(g: GameView) -> GameView {
    if g.frame != 0 && g.frame % 20 == 0 {
        let g1 = try_move(g, 0, 1);
        if spec_collides(g1.board, g1.block, 0, 0) {
            GameView { is_over: true, ..g1 }
        } else if spec_collides(g1.board, g1.block, 0, 1) {
            GameView { settle_wait: 15, ..g1 }
        } else {
            g1
        }
    } else {
        g
    }
}

/// The ordered positions of the completely filled interior rows among rows
/// `0 .. n` of the board, in increasing order.
pub open spec fn filled_row_seq(board: Seq<Seq<u8>>, n: int) -> Seq<int>
    decreases n,
{
    if n <= 0 {
        Seq::empty()
    } else if row_filled(board, n - 1) {
        filled_row_seq(board, n - 1).push(n - 1)
    } else {
        filled_row_seq(board, n - 1)
    }
}

/// The board after row-clear detection and compaction: if `k > 0` rows are
/// filled and the lowest filled row is `m`, every interior cell of a row
/// `y <= m` takes the value of row `y - k` (or empty where no such row
/// exists); all other cells, in particular the whole border, are unchanged.
pub open spec fn cleared_board(board: Seq<Seq<u8>>) -> Seq<Seq<u8>> {
    let rows = filled_row_seq(board, 20);
    if rows.len() == 0 {
        board
    } else {
        let k = rows.len() as int;
        let m = rows.last();
        Seq::new(
            21,
            |y: int|
                Seq::new(
                    12,
                    |x: int|
                        if 1 <= x <= 10 && y <= m {
                            if y - k >= 0 {
                                board[y - k][x]
                            } else {
                                0u8
                            }
                        } else {
                            board[y][x]
                        },
                ),
        )
    }
}

/// The row-clear step of one tick.
pub open spec fn clear_phase(g: GameView) -> GameView {
    GameView { board: cleared_board(g.board), ..g }
}

/// One whole tick: in the terminal state nothing happens; otherwise the
/// lock-delay, command, gravity and row-clear steps run in that order and
/// the frame counter advances. `s` is the shape drawn for the queue if a
/// piece spawned this tick; the result does not depend on `s` otherwise.
pub open spec fn spec_tick(g: GameView, cmd: Command, s: Shape) -> GameView {
    if g.is_over {
        g
    } else {
        let g4 = clear_phase(gravity_phase(command_phase(lock_phase(g, s), cmd)));
        GameView { frame: g4.frame + 1, ..g4 }
    }
}

/// Well-formedness of an engine state: the board has the fixed dimensions
/// and walled borders, the active piece is inside the frame with fields in
/// range, the queued piece sits at the spawn cell, and the counters are
/// non-negative.
pub open spec fn game_wf(g: GameView) -> bool {
    &&& board_dims(g.board)
    &&& borders_walled(g.board)
    &&& block_wf(g.block)
    &&& next_block_wf(g.next_block)
    &&& 0 <= g.frame
    &&& 0 <= g.settle_wait
    &&& 0 <= g.block_created_count
}

/// The standard initial board: walls in the first and last column, a floor
/// in the last row, everything else empty.
pub open spec fn initial_board() -> Seq<Seq<u8>> {
    Seq::new(
        21,
        |y: int|
            Seq::new(
                12,
                |x: int|
                    if x == 0 || x == 11 || y == 20 {
                        1u8
                    } else {
                        0u8
                    },
            ),
    )
}

/// `filled_row_seq(board, n)` lists exactly the completely filled rows below
/// `n`, each once, in increasing order.
pub proof fn lemma_filled_row_seq_props(board: Seq<Seq<u8>>, n: int)
    requires
        0 <= n,
    ensures
        filled_row_seq(board, n).len() <= n,
        forall|idx: int|
            0 <= idx < filled_row_seq(board, n).len() ==> 0 <= #[trigger] filled_row_seq(
                board,
                n,
            )[idx] < n && row_filled(board, filled_row_seq(board, n)[idx]),
        forall|a: int, b: int|
            0 <= a < b < filled_row_seq(board, n).len() ==> filled_row_seq(board, n)[a]
                < filled_row_seq(board, n)[b],
        forall|y: int|
            0 <= y < n && row_filled(board, y) ==> filled_row_seq(board, n).contains(y),
    decreases n,
{
    if n > 0 {
        lemma_filled_row_seq_props(board, n - 1);
        let prev = filled_row_seq(board, n - 1);
        let cur = filled_row_seq(board, n);
        if row_filled(board, n - 1) {
            assert(cur == prev.push(n - 1));
            assert(forall|idx: int| 0 <= idx < prev.len() ==> cur[idx] == prev[idx]);
            assert(cur[cur.len() - 1] == n - 1);
            assert forall|y: int| 0 <= y < n && row_filled(board, y) implies cur.contains(y) by {
                if y < n - 1 {
                    let idx = choose|idx: int| 0 <= idx < prev.len() && prev[idx] == y;
                    assert(cur[idx] == y);
                } else {
                    assert(cur[cur.len() - 1] == y);
                }
            }
        } else {
            assert(cur == prev);
            assert forall|y: int| 0 <= y < n && row_filled(board, y) implies cur.contains(y) by {
                assert(y != n - 1);
            }
        }
    }
}

/// Row-clear idempotence: on a board with no completely filled interior row,
/// row-clear detection and compaction change nothing.
pub proof fn lemma_row_clear_unchanged(board: Seq<Seq<u8>>)
    requires
        forall|y: int| 0 <= y < 20 ==> !row_filled(board, y),
    ensures
        cleared_board(board) == board,
{
    lemma_filled_row_seq_props(board, 20);
    let rows = filled_row_seq(board, 20);
    if rows.len() > 0 {
        assert(row_filled(board, rows[0]));
    }
}

/// The row-clear compaction law: when `k > 0` rows are filled and `m` is the
/// lowest (largest-index) filled row, every interior cell of a row `y <= m`
/// of the cleared board equals the pre-clear cell `k` rows above (or empty
/// where no such row exists), and every other cell is unchanged. `m` is
/// itself a filled row and no filled row lies below it.
pub proof fn lemma_row_clear_compaction(board: Seq<Seq<u8>>)
    requires
        board_dims(board),
        filled_row_seq(board, 20).len() > 0,
    ensures
        ({
            let k = filled_row_seq(board, 20).len() as int;
            let m = filled_row_seq(board, 20).last();
            &&& 0 <= m < 20
            &&& row_filled(board, m)
            &&& forall|y: int| 0 <= y < 20 && row_filled(board, y) ==> y <= m
            &&& forall|x: int, y: int|
                1 <= x <= 10 && 0 <= y <= m ==> #[trigger] cleared_board(board)[y][x] == (if y - k
                    >= 0 {
                    board[y - k][x]
                } else {
                    0u8
                })
            &&& forall|x: int, y: int|
                0 <= x < 12 && 0 <= y < 21 && !(1 <= x <= 10 && y <= m)
                    ==> #[trigger] cleared_board(board)[y][x] == board[y][x]
        }),
{
    lemma_filled_row_seq_props(board, 20);
    let rows = filled_row_seq(board, 20);
    let m = rows.last();
    assert forall|y: int| 0 <= y < 20 && row_filled(board, y) implies y <= m by {
        let idx = choose|idx: int| 0 <= idx < rows.len() && rows[idx] == y;
        if idx < rows.len() - 1 {
            assert(rows[idx] < rows[rows.len() - 1]);
        }
    }
}

/// A piece that does not collide anywhere sits strictly inside the frame:
/// its cells are inside the grid because outside cells count as filled, and
/// off the borders because border cells are filled.
pub proof fn lemma_no_collide_in_frame(board: Seq<Seq<u8>>, b: Block)
    requires
        board_dims(board),
        borders_walled(board),
        !spec_collides(board, b, 0, 0),
    ensures
        in_frame(b),
{
    assert forall|i: int, j: int|
        0 <= i < 5 && 0 <= j < 5 && #[trigger] mask_cell(b.shape, b.rot as int, i, j) implies 1
        <= b.x + j <= 10 && 0 <= b.y + i <= 19 by {
        assert(!cell_filled(board, b.x + j, b.y + i));
    }
}

/// The guarded move preserves well-formedness: an accepted move lands the
/// piece on free cells only, hence inside the frame.
pub proof fn lemma_try_move_wf(g: GameView, dx: int, dy: int)
    requires
        game_wf(g),
        -1 <= dx <= 1,
        0 <= dy <= 1,
    ensures
        game_wf(try_move(g, dx, dy)),
{
    lemma_in_frame_bounds(g.block);
    if !spec_collides(g.board, g.block, dx, dy) {
        let b1 = block_moved(g.block, dx, dy);
        assert(b1.x == g.block.x + dx && b1.y == g.block.y + dy);
        assert(!spec_collides(g.board, b1, 0, 0)) by {
            if spec_collides(g.board, b1, 0, 0) {
                let (i, j): (int, int) = choose|i: int, j: int|
                    0 <= i < 5 && 0 <= j < 5 && #[trigger] mask_cell(b1.shape, b1.rot as int, i, j)
                        && cell_filled(g.board, b1.x + j, b1.y + i);
                assert(cell_filled(g.board, g.block.x + j + dx, g.block.y + i + dy));
            }
        }
        lemma_no_collide_in_frame(g.board, b1);
    }
}

/// The guarded rotation preserves well-formedness: an accepted quarter turn
/// leaves the piece on free cells only, hence inside the frame.
pub proof fn lemma_try_rotate_wf(g: GameView, dir: int)
    requires
        game_wf(g),
    ensures
        game_wf(try_rotate(g, dir)),
{
    let b1 = block_rotated(g.block, dir);
    if !spec_collides(g.board, b1, 0, 0) {
        lemma_no_collide_in_frame(g.board, b1);
    }
}

/// The lock-delay step preserves well-formedness: settling writes fragments
/// only inside the frame (so the borders stay walls), and the piece that
/// spawns in its place sits at the spawn cell inside the frame.
pub proof fn lemma_lock_phase_wf(g: GameView, s: Shape)
    requires
        game_wf(g),
    ensures
        game_wf(lock_phase(g, s)),
{
    if g.settle_wait > 0 && g.settle_wait - 1 == 0 && spec_collides(g.board, g.block, 0, 1) {
        let board1 = settled_board(g.board, g.block);
        assert forall|x: int, y: int|
            0 <= x < 12 && 0 <= y < 21 && (x == 0 || x == 11 || y == 20) implies
            #[trigger] board1[y][x] == 1 by {
            if block_occupies(g.block, x, y) {
                assert(mask_cell(g.block.shape, g.block.rot as int, y - g.block.y, x - g.block.x));
                assert(1 <= x <= 10 && 0 <= y <= 19);
            }
        }
        lemma_spawn_in_frame(g.next_block);
    }
}

/// The command step preserves well-formedness.
pub proof fn lemma_command_phase_wf(g: GameView, cmd: Command)
    requires
        game_wf(g),
    ensures
        game_wf(command_phase(g, cmd)),
{
    match cmd {
        Command::Right => lemma_try_move_wf(g, 1, 0),
        Command::Left => lemma_try_move_wf(g, -1, 0),
        Command::Down => lemma_try_move_wf(g, 0, 1),
        Command::RotateLeft => lemma_try_rotate_wf(g, 1),
        Command::RotateRight => lemma_try_rotate_wf(g, -1),
        Command::Noop => {},
    }
}

/// The forced-gravity step preserves well-formedness.
pub proof fn lemma_gravity_phase_wf(g: GameView)
    requires
        game_wf(g),
    ensures
        game_wf(gravity_phase(g)),
{
    if g.frame != 0 && g.frame % 20 == 0 {
        lemma_try_move_wf(g, 0, 1);
    }
}

/// The row-clear step preserves well-formedness: compaction touches only
/// interior cells of rows above the floor, so the borders stay walls.
pub proof fn lemma_clear_phase_wf(g: GameView)
    requires
        game_wf(g),
    ensures
        game_wf(clear_phase(g)),
{
    lemma_filled_row_seq_props(g.board, 20);
}

/// The border invariant: a whole tick preserves well-formedness, and in
/// particular column 0, the last column and the last row of the board still
/// hold the permanent wall/floor value 1 afterwards. By induction, they do
/// so after any sequence of ticks from a well-formed start.
pub proof fn lemma_tick_preserves_wf(g: GameView, cmd: Command, s: Shape)
    requires
        game_wf(g),
    ensures
        game_wf(spec_tick(g, cmd, s)),
        borders_walled(spec_tick(g, cmd, s).board),
{
    if !g.is_over {
        let g1 = lock_phase(g, s);
        let g2 = command_phase(g1, cmd);
        let g3 = gravity_phase(g2);
        lemma_lock_phase_wf(g, s);
        lemma_command_phase_wf(g1, cmd);
        lemma_gravity_phase_wf(g2);
        lemma_clear_phase_wf(g3);
    }
}

/// Lock-then-spawn: when the lock-delay timer is about to expire while the
/// piece still rests on support, the tick's lock step writes the piece's
/// occupied cells into the board at value `2 + color`, promotes the queued
/// piece to active at the spawn cell (4, 0), and queues a fresh piece.
pub proof fn lemma_lock_then_spawn(g: GameView, s: Shape)
    requires
        game_wf(g),
        g.settle_wait == 1,
        spec_collides(g.board, g.block, 0, 1),
    ensures
        ({
            let g1 = lock_phase(g, s);
            &&& forall|x: int, y: int|
                0 <= x < 12 && 0 <= y < 21 && block_occupies(g.block, x, y)
                    ==> #[trigger] g1.board[y][x] == 2 + g.block.color
            &&& g1.block == g.next_block
            &&& g1.block.x == 4 && g1.block.y == 0
            &&& g1.next_block == spawned_block(s, g.block_created_count)
            &&& g1.block_created_count == g.block_created_count + 1
            &&& g1.settle_wait == 0
        }),
{
}

impl Game {
    /// A fresh game: walls and floor installed, a random piece spawned at
    /// the spawn cell and another queued, all counters at their start
    /// values. The generator is seeded with `seed`.
    pub fn new(seed: u64) -> (r: Game)
        ensures
            game_wf(r@),
            r.is_over == false,
            r@.frame == 0,
            r@.settle_wait == 0,
            r@.block_created_count == 2,
            r@.board == initial_board(),
            r.block == spawned_block(r.block.shape, 0),
            r.next_block == spawned_block(r.next_block.shape, 1),
    {
        let rng = rng_from_seed(seed);
        let mut game = Game {
            rng,
            is_over: false,
            frame: 0,
            settle_wait: 0,
            piles: Piles::new(),
            block: Block::new(),
            next_block: Block::new(),
            block_created_count: 0,
        };
        game.piles.setup_wall_and_floor();
        proof {
            assert(game.piles@ =~~= initial_board());
        }
        game.next_block = Block::create_randomly(&mut game.rng, game.block_created_count);
        game.block_created_count = game.block_created_count + 1;
        game.spawn_block();
        proof {
            lemma_spawn_in_frame(game.block);
        }
        game
    }

    /// Advance the game by exactly one tick: run the lock-delay step, apply
    /// the player command as a guarded move or rotation, apply forced
    /// gravity every 20 frames, run row-clear compaction, and count the
    /// frame. In the terminal game-over state the tick is a no-op. The
    /// result is `spec_tick` of the previous state for the randomly drawn
    /// shape `s` of the piece queued this tick (any shape, if none was).
    #[verifier::rlimit(60)]
    pub fn update(&mut self, command: Command)
        requires
            game_wf(old(self)@),
            old(self).frame < i32::MAX,
            old(self).block_created_count < u32::MAX,
        ensures
            game_wf(final(self)@),
            exists|s: Shape| final(self)@ == #[trigger] spec_tick(old(self)@, command, s),
            old(self).is_over ==> final(self).rng == old(self).rng,
    {
        if self.is_over {
            proof {
                assert(final(self)@ == spec_tick(old(self)@, command, Shape::S0));
            }
            return ;
        }
        let ghost g0 = self@;
        let ghost mut s_spec: Shape = Shape::S0;
        if self.settle_wait > 0 {
            self.settle_wait = self.settle_wait - 1;
            if self.settle_wait == 0 {
                proof {
                    lemma_in_frame_bounds(self.block);
                }
                if self.is_collide(0, 1) {
                    self.settle_block();
                    self.spawn_block();
                    proof {
                        s_spec = self.next_block.shape;
                    }
                }
            }
        }
        proof {
            assert(self@ =~= lock_phase(g0, s_spec));
            lemma_lock_phase_wf(g0, s_spec);
        }
        let ghost g1 = self@;
        match command {
            Command::Right => self.move_by_delta(1, 0),
            Command::Left => self.move_by_delta(-1, 0),
            Command::Down => self.move_by_delta(0, 1),
            Command::RotateLeft => self.rotate(1),
            Command::RotateRight => self.rotate(-1),
            Command::Noop => {},
        }
        proof {
            assert(self@ =~= command_phase(g1, command));
            lemma_command_phase_wf(g1, command);
        }
        let ghost g2 = self@;
        if self.frame != 0 && self.frame % 20 == 0 {
            self.move_by_delta(0, 1);
            proof {
                lemma_in_frame_bounds(self.block);
            }
            if self.is_collide(0, 0) {
                self.is_over = true;
            } else if self.is_collide(0, 1) {
                self.settle_wait = 15;
            }
        }
        proof {
            assert(self@ =~= gravity_phase(g2));
            lemma_gravity_phase_wf(g2);
        }
        let ghost g3 = self@;
        self.check_erase_row();
        proof {
            assert(self@ =~= clear_phase(g3));
            lemma_clear_phase_wf(g3);
        }
        self.frame = self.frame + 1;
        proof {
            assert(final(self)@ =~= spec_tick(g0, command, s_spec));
        }
    }

    /// The single collision primitive: whether the active piece, displaced
    /// by `(x_delta, y_delta)`, would overlap a filled cell or leave the
    /// grid. It is used for move validation, rotation validation, lock
    /// detection and game-over detection. The coordinate bounds asked of the
    /// caller only keep the probe arithmetic exact; they hold with plenty of
    /// slack for every piece inside the frame.
    pub fn is_collide(&self, x_delta: i32, y_delta: i32) -> (r: bool)
        requires
            0 <= self.block.rot < 4,
            -16 <= self.block.x <= 16,
            -16 <= self.block.y <= 24,
            -2 <= x_delta <= 2,
            -2 <= y_delta <= 2,
        ensures
            r == spec_collides(self.piles@, self.block, x_delta as int, y_delta as int),
    {
        let pattern = self.block.get_pattern();
        let mut i: usize = 0;
        while i < 5
            invariant
                i <= 5,
                0 <= self.block.rot < 4,
                -16 <= self.block.x <= 16,
                -16 <= self.block.y <= 24,
                -2 <= x_delta <= 2,
                -2 <= y_delta <= 2,
                forall|a: int, b: int|
                    0 <= a < 5 && 0 <= b < 5 ==> ((#[trigger] pattern[a][b] == 1) == mask_cell(
                        self.block.shape,
                        self.block.rot as int,
                        a,
                        b,
                    )) && (pattern[a][b] == 0 || pattern[a][b] == 1),
                forall|a: int, b: int|
                    0 <= a < i && 0 <= b < 5 && #[trigger] mask_cell(
                        self.block.shape,
                        self.block.rot as int,
                        a,
                        b,
                    ) ==> !cell_filled(
                        self.piles@,
                        self.block.x + b + x_delta,
                        self.block.y + a + y_delta,
                    ),
            decreases 5 - i,
        {
            let mut j: usize = 0;
            while j < 5
                invariant
                    i < 5,
                    j <= 5,
                    0 <= self.block.rot < 4,
                    -16 <= self.block.x <= 16,
                    -16 <= self.block.y <= 24,
                    -2 <= x_delta <= 2,
                    -2 <= y_delta <= 2,
                    forall|a: int, b: int|
                        0 <= a < 5 && 0 <= b < 5 ==> ((#[trigger] pattern[a][b] == 1) == mask_cell(
                            self.block.shape,
                            self.block.rot as int,
                            a,
                            b,
                        )) && (pattern[a][b] == 0 || pattern[a][b] == 1),
                    forall|a: int, b: int|
                        0 <= a < i && 0 <= b < 5 && #[trigger] mask_cell(
                            self.block.shape,
                            self.block.rot as int,
                            a,
                            b,
                        ) ==> !cell_filled(
                            self.piles@,
                            self.block.x + b + x_delta,
                            self.block.y + a + y_delta,
                        ),
                    forall|b: int|
                        0 <= b < j && #[trigger] mask_cell(
                            self.block.shape,
                            self.block.rot as int,
                            i as int,
                            b,
                        ) ==> !cell_filled(
                            self.piles@,
                            self.block.x + b + x_delta,
                            self.block.y + i + y_delta,
                        ),
                decreases 5 - j,
            {
                if pattern[i][j] != 0 {
                    let new_x = self.block.x + (j as i32) + x_delta;
                    let new_y = self.block.y + (i as i32) + y_delta;
                    if new_x < 0 || new_x >= 12 || new_y < 0 || new_y >= 21 {
                        assert(cell_filled(self.piles@, new_x as int, new_y as int));
                        return true;
                    }
                    if self.piles.is_filled(new_x as usize, new_y as usize) {
                        return true;
                    }
                }
                j += 1;
            }
            i += 1;
        }
        false
    }

    /// The guarded move: apply the translation only if the target cells are
    /// free; after a downward attempt, arm the lock-delay timer if the piece
    /// now rests on support and the timer is not already running.
    pub fn move_by_delta(&mut self, x_delta: i32, y_delta: i32)
        requires
            game_wf(old(self)@),
            -1 <= x_delta <= 1,
            0 <= y_delta <= 1,
        ensures
            final(self)@ == try_move(old(self)@, x_delta as int, y_delta as int),
            final(self).rng == old(self).rng,
            game_wf(final(self)@),
    {
        proof {
            lemma_in_frame_bounds(self.block);
        }
        if !self.is_collide(x_delta, y_delta) {
            self.block.move_by_delta(x_delta, y_delta);
            proof {
                assert(self.block == block_moved(old(self).block, x_delta as int, y_delta as int));
                assert(!spec_collides(self.piles@, self.block, 0, 0)) by {
                    if spec_collides(self.piles@, self.block, 0, 0) {
                        let (i, j): (int, int) = choose|i: int, j: int|
                            0 <= i < 5 && 0 <= j < 5 && #[trigger] mask_cell(
                                self.block.shape,
                                self.block.rot as int,
                                i,
                                j,
                            ) && cell_filled(self.piles@, self.block.x + j, self.block.y + i);
                        assert(cell_filled(
                            self.piles@,
                            old(self).block.x + j + x_delta,
                            old(self).block.y + i + y_delta,
                        ));
                    }
                }
                lemma_no_collide_in_frame(self.piles@, self.block);
            }
        }
        if y_delta > 0 && self.settle_wait == 0 {
            proof {
                lemma_in_frame_bounds(self.block);
            }
            if self.is_collide(0, 1) {
                self.settle_wait = 15;
            }
        }
        assert(final(self)@ =~= try_move(old(self)@, x_delta as int, y_delta as int));
    }

    /// The guarded rotation: apply the quarter turn, then revert it if the
    /// rotated piece overlaps a filled cell.
    pub fn rotate(&mut self, dir: i32)
        requires
            game_wf(old(self)@),
            dir == 1 || dir == -1,
        ensures
            final(self)@ == try_rotate(old(self)@, dir as int),
            final(self).rng == old(self).rng,
            game_wf(final(self)@),
    {
        proof {
            lemma_in_frame_bounds(self.block);
        }
        self.block.rotate(dir);
        proof {
            assert(self.block == block_rotated(old(self).block, dir as int));
        }
        if self.is_collide(0, 0) {
            self.block.rotate(-dir);
            proof {
                assert(self.block == old(self).block);
            }
        } else {
            proof {
                lemma_no_collide_in_frame(self.piles@, self.block);
            }
        }
        assert(final(self)@ =~= try_rotate(old(self)@, dir as int));
    }

    /// Write the active piece's occupied cells into the board as settled
    /// fragments of value `2 + color`; every other cell keeps its value.
    pub fn settle_block(&mut self)
        requires
            block_wf(old(self).block),
        ensures
            final(self)@ == (GameView {
                board: settled_board(old(self)@.board, old(self).block),
                ..old(self)@
            }),
            final(self).rng == old(self).rng,
    {
        let ghost b = self.block;
        let ghost board0 = self.piles@;
        let pattern = self.block.get_pattern();
        let mut i: usize = 0;
        while i < 5
            invariant
                i <= 5,
                self.block == b,
                block_wf(b),
                self.rng == old(self).rng,
                self.is_over == old(self).is_over,
                self.frame == old(self).frame,
                self.settle_wait == old(self).settle_wait,
                self.next_block == old(self).next_block,
                self.block_created_count == old(self).block_created_count,
                board0 == old(self)@.board,
                forall|a: int, c: int|
                    0 <= a < 5 && 0 <= c < 5 ==> ((#[trigger] pattern[a][c] == 1) == mask_cell(
                        b.shape,
                        b.rot as int,
                        a,
                        c,
                    )) && (pattern[a][c] == 0 || pattern[a][c] == 1),
                forall|x: int, y: int|
                    0 <= x < 12 && 0 <= y < 21 ==> #[trigger] self.piles@[y][x] == (if (
                    block_occupies(b, x, y) && y - b.y < i) {
                        (2 + b.color) as u8
                    } else {
                        board0[y][x]
                    }),
            decreases 5 - i,
        {
            let mut j: usize = 0;
            while j < 5
                invariant
                    i < 5,
                    j <= 5,
                    self.block == b,
                    block_wf(b),
                    self.rng == old(self).rng,
                    self.is_over == old(self).is_over,
                    self.frame == old(self).frame,
                    self.settle_wait == old(self).settle_wait,
                    self.next_block == old(self).next_block,
                    self.block_created_count == old(self).block_created_count,
                    board0 == old(self)@.board,
                    forall|a: int, c: int|
                        0 <= a < 5 && 0 <= c < 5 ==> ((#[trigger] pattern[a][c] == 1) == mask_cell(
                            b.shape,
                            b.rot as int,
                            a,
                            c,
                        )) && (pattern[a][c] == 0 || pattern[a][c] == 1),
                    forall|x: int, y: int|
                        0 <= x < 12 && 0 <= y < 21 ==> #[trigger] self.piles@[y][x] == (if (
                        block_occupies(b, x, y) && (y - b.y < i || (y - b.y == i && x - b.x < j))) {
                            (2 + b.color) as u8
                        } else {
                            board0[y][x]
                        }),
                decreases 5 - j,
            {
                if pattern[i][j] == 1 {
                    proof {
                        assert(mask_cell(b.shape, b.rot as int, i as int, j as int));
                        assert(1 <= b.x + j <= 10 && 0 <= b.y + i <= 19);
                    }
                    let ghost prev = self.piles@;
                    let by = (self.block.y + i as i32) as usize;
                    let bx = (self.block.x + j as i32) as usize;
                    let mut row = self.piles.pattern[by];
                    row[bx] = 2 + self.block.color;
                    self.piles.pattern[by] = row;
                    proof {
                        assert(self.piles@[by as int][bx as int] == (2 + b.color) as u8);
                        assert(forall|x: int, y: int|
                            0 <= x < 12 && 0 <= y < 21 && !(x == bx && y == by)
                                ==> #[trigger] self.piles@[y][x] == prev[y][x]);
                        assert(block_occupies(b, bx as int, by as int));
                    }
                }
                j += 1;
                assert forall|x: int, y: int| 0 <= x < 12 && 0 <= y < 21 implies
                    #[trigger] self.piles@[y][x] == (if (block_occupies(b, x, y) && (y - b.y < i
                    || (y - b.y == i && x - b.x < j))) {
                    (2 + b.color) as u8
                } else {
                    board0[y][x]
                }) by {
                    if block_occupies(b, x, y) {
                        assert(mask_cell(b.shape, b.rot as int, y - b.y, x - b.x));
                    }
                }
            }
            i += 1;
        }
        proof {
            assert(self.piles@ =~~= settled_board(old(self)@.board, old(self).block));
            assert(final(self)@ =~= (GameView {
                board: settled_board(old(self)@.board, old(self).block),
                ..old(self)@
            }));
        }
    }

    /// Promote the queued piece to active and queue a fresh random piece.
    /// Spawning itself never checks for collision; an overlap is only
    /// detected by the next forced-gravity step.
    pub fn spawn_block(&mut self)
        requires
            old(self).block_created_count < u32::MAX,
        ensures
            final(self)@ == spawn_view(old(self)@, final(self).next_block.shape),
    {
        self.block = self.next_block;
        self.next_block = Block::create_randomly(&mut self.rng, self.block_created_count);
        self.block_created_count = self.block_created_count + 1;
        assert(final(self)@ =~= spawn_view(old(self)@, final(self).next_block.shape));
    }

    /// The positions of the completely filled interior rows, top to bottom.
    pub fn get_filled_rows(&self) -> (r: Vec<usize>)
        ensures
            r@.len() == filled_row_seq(self.piles@, 20).len(),
            forall|idx: int|
                0 <= idx < r@.len() ==> #[trigger] r@[idx] as int == filled_row_seq(
                    self.piles@,
                    20,
                )[idx],
    {
        let mut result: Vec<usize> = Vec::new();
        let mut y: usize = 0;
        while y < 20
            invariant
                y <= 20,
                result@.len() == filled_row_seq(self.piles@, y as int).len(),
                forall|idx: int|
                    0 <= idx < result@.len() ==> #[trigger] result@[idx] as int == filled_row_seq(
                        self.piles@,
                        y as int,
                    )[idx],
            decreases 20 - y,
        {
            let ghost prev = filled_row_seq(self.piles@, y as int);
            if self.piles.is_row_filled(y) {
                result.push(y);
            }
            y += 1;
            proof {
                let cur = filled_row_seq(self.piles@, y as int);
                if row_filled(self.piles@, y - 1) {
                    assert(cur == prev.push(y - 1));
                } else {
                    assert(cur == prev);
                }
            }
        }
        result
    }

    /// Row-clear detection and compaction: collect the completely filled
    /// interior rows; if any exist, shift every interior cell at or above
    /// the lowest filled row down by the number of filled rows, filling the
    /// vacated top rows with empty cells.
    pub fn check_erase_row(&mut self)
        ensures
            final(self)@ == (GameView { board: cleared_board(old(self)@.board), ..old(self)@ }),
            final(self).rng == old(self).rng,
    {
        let ghost board0 = self.piles@;
        proof {
            assert(board_dims(board0));
            lemma_filled_row_seq_props(board0, 20);
        }
        let filled_rows = self.get_filled_rows();
        if filled_rows.len() > 0 {
            let k: usize = filled_rows.len();
            let max_filled_row: usize = filled_rows[k - 1];
            proof {
                assert(max_filled_row as int == filled_row_seq(board0, 20).last());
                assert(max_filled_row < 20);
                assert(1 <= k <= 20);
            }
            let mut yy: usize = max_filled_row + 1;
            while yy > 0
                invariant
                    yy <= max_filled_row + 1,
                    max_filled_row < 20,
                    1 <= k <= 20,
                    board_dims(board0),
                    k == filled_row_seq(board0, 20).len(),
                    max_filled_row as int == filled_row_seq(board0, 20).last(),
                    board0 == old(self)@.board,
                    self.rng == old(self).rng,
                    self.is_over == old(self).is_over,
                    self.frame == old(self).frame,
                    self.settle_wait == old(self).settle_wait,
                    self.block == old(self).block,
                    self.next_block == old(self).next_block,
                    self.block_created_count == old(self).block_created_count,
                    forall|x: int, y: int|
                        0 <= x < 12 && 0 <= y < 21 ==> #[trigger] self.piles@[y][x] == (if (1 <= x
                            <= 10 && yy <= y <= max_filled_row) {
                            if y - k >= 0 {
                                board0[y - k][x]
                            } else {
                                0u8
                            }
                        } else {
                            board0[y][x]
                        }),
                decreases yy,
            {
                yy -= 1;
                let ghost prev = self.piles@;
                proof {
                    assert forall|c: int| 0 <= c < 12 implies #[trigger] self.piles@[yy as int][c]
                        == board0[yy as int][c] by {}
                    if yy >= k {
                        assert forall|c: int| 0 <= c < 12 implies #[trigger] self.piles@[yy - k][c]
                            == board0[yy - k][c] by {}
                    }
                }
                let mut row = self.piles.pattern[yy];
                proof {
                    assert forall|c: int| 0 <= c < 12 implies #[trigger] row[c] == board0[yy as int][c] by {
                        assert(row[c] == self.piles@[yy as int][c]);
                    }
                }
                let mut x: usize = 1;
                while x <= 10
                    invariant
                        1 <= x <= 11,
                        yy <= max_filled_row < 20,
                        1 <= k <= 20,
                        board_dims(board0),
                        self.piles@ == prev,
                        self.rng == old(self).rng,
                        forall|c: int|
                            0 <= c < 12 && yy >= k ==> #[trigger] self.piles@[yy - k][c]
                                == board0[yy - k][c],
                        forall|c: int|
                            1 <= c < x ==> #[trigger] row[c] == (if yy >= k {
                                board0[yy - k][c]
                            } else {
                                0u8
                            }),
                        forall|c: int|
                            0 <= c < 12 && (c == 0 || c >= x) ==> #[trigger] row[c] == board0[yy as int][c],
                    decreases 11 - x,
                {
                    let v: u8 = if yy >= k {
                        self.piles.pattern[yy - k][x]
                    } else {
                        0
                    };
                    proof {
                        if yy >= k {
                            assert(v == self.piles@[yy - k][x as int]);
                        }
                    }
                    row[x] = v;
                    x += 1;
                }
                self.piles.pattern[yy] = row;
                assert forall|x: int, y: int| 0 <= x < 12 && 0 <= y < 21 implies
                    #[trigger] self.piles@[y][x] == (if (1 <= x <= 10 && yy <= y
                    <= max_filled_row) {
                    if y - k >= 0 {
                        board0[y - k][x]
                    } else {
                        0u8
                    }
                } else {
                    board0[y][x]
                }) by {
                    if y == yy {
                        assert(self.piles@[y][x] == row[x]);
                    } else {
                        assert(self.piles@[y][x] == prev[y][x]);
                    }
                }
            }
            proof {
                assert(self.piles@ =~~= cleared_board(board0));
            }
        } else {
            proof {
                assert(cleared_board(board0) == board0);
            }
        }
        assert(final(self)@ =~= (GameView { board: cleared_board(old(self)@.board), ..old(self)@ }));
    }
}

} // verus!
