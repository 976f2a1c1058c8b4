//! The board: the grid of settled cells, the piece that falls, and the rules
//! by which it moves, locks and clears rows.

use crate::grid::{
    clear_rows, empty_row, empty_rows, grid_ok, grid_view, has_gap, in_board, is_full,
    lemma_clear_done, lemma_clear_nothing, lemma_clear_rows, lemma_clear_step, new_row, row_full,
    set_cell, stamp, top_filled, Cell, BOARD_HEIGHT, BOARD_WIDTH,
};
use crate::tetro::{as_cells, lemma_cells_at, lemma_fresh_is_wf, Tetro, TetroKind, TetroView};
use std::collections::VecDeque;
use vstd::prelude::*;

verus! {

/// Whether the game goes on. Once over, it stays over.
#[derive(Clone, Copy, PartialEq, Eq, Debug, Structural)]
pub enum GameStatus {
    Running,
    Over,
}

/// What becomes of a move that was asked for.
#[derive(Clone, Copy, PartialEq, Eq, Debug, Structural)]
pub enum MoveOutcome {
    /// The piece moves.
    Valid,
    /// The piece stays, is written into the grid, and a new one comes.
    Lock,
    /// The piece stays and nothing changes.
    Prevent,
}

/// A key as far as the board tells keys apart.
#[derive(Clone, Copy, PartialEq, Eq, Debug, Structural)]
pub enum Key {
    Left,
    Right,
    Down,
    Space,
    Other,
}

/// What one cell of a piece says of a move: nothing, if the cell is free.
/// A column off the board forbids the move. A row off the board locks the
/// piece. A settled cell in the way forbids a move sideways and locks the
/// piece on a move down.
pub open spec fn verdict(grid: Seq<Seq<Cell>>, c: (int, int), horizontal: bool) -> Option<
    MoveOutcome,
> {
    if !(0 <= c.0 < BOARD_WIDTH) {
        Some(MoveOutcome::Prevent)
    } else if !(0 <= c.1 < BOARD_HEIGHT) {
        Some(MoveOutcome::Lock)
    } else if grid[c.1][c.0] is Filled {
        Some(
            if horizontal {
                MoveOutcome::Prevent
            } else {
                MoveOutcome::Lock
            },
        )
    } else {
        None
    }
}

/// The outcome of a move that would bring a piece onto `cells`: the first
/// cell with a verdict decides, and the move is valid if none has one.
pub open spec fn classify(
    grid: Seq<Seq<Cell>>,
    cells: Seq<(int, int)>,
    horizontal: bool,
) -> MoveOutcome
    decreases cells.len(),
{
    if cells.len() == 0 {
        MoveOutcome::Valid
    } else {
        match verdict(grid, cells[0], horizontal) {
            Some(outcome) => outcome,
            None => classify(grid, cells.drop_first(), horizontal),
        }
    }
}

/// A move is valid just when no cell has a verdict.
pub proof fn lemma_classify_valid(grid: Seq<Seq<Cell>>, cells: Seq<(int, int)>, horizontal: bool)
    ensures
        classify(grid, cells, horizontal) is Valid <==> forall|i: int|
            0 <= i < cells.len() ==> verdict(grid, #[trigger] cells[i], horizontal) is None,
    decreases cells.len(),
{
    if cells.len() > 0 {
        let rest = cells.drop_first();
        lemma_classify_valid(grid, rest, horizontal);
        if verdict(grid, cells[0], horizontal) is None {
            if classify(grid, cells, horizontal) is Valid {
                assert forall|i: int| 0 <= i < cells.len() implies verdict(
                    grid,
                    #[trigger] cells[i],
                    horizontal,
                ) is None by {
                    if i > 0 {
                        assert(cells[i] == rest[i - 1]);
                    }
                }
            } else {
                let i = choose|i: int|
                    0 <= i < rest.len() && !(verdict(grid, #[trigger] rest[i], horizontal) is None);
                assert(cells[i + 1] == rest[i]);
            }
        }
    }
}

/// If the cells that have a verdict all have the same one, and one of them
/// has it, that verdict is the outcome.
pub proof fn lemma_classify_same(
    grid: Seq<Seq<Cell>>,
    cells: Seq<(int, int)>,
    horizontal: bool,
    outcome: MoveOutcome,
)
    requires
        forall|i: int|
            0 <= i < cells.len() ==> {
                let v = verdict(grid, #[trigger] cells[i], horizontal);
                v is None || v == Some(outcome)
            },
        exists|i: int|
            0 <= i < cells.len() && verdict(grid, #[trigger] cells[i], horizontal) == Some(outcome),
    ensures
        classify(grid, cells, horizontal) == outcome,
    decreases cells.len(),
{
    let rest = cells.drop_first();
    if verdict(grid, cells[0], horizontal) is None {
        let i = choose|i: int|
            0 <= i < cells.len() && verdict(grid, #[trigger] cells[i], horizontal) == Some(outcome);
        assert(rest[i - 1] == cells[i]);
        assert forall|j: int| 0 <= j < rest.len() implies {
            let v = verdict(grid, #[trigger] rest[j], horizontal);
            v is None || v == Some(outcome)
        } by {
            assert(rest[j] == cells[j + 1]);
        }
        lemma_classify_same(grid, rest, horizontal, outcome);
    }
}

/// What a board is, as plain mathematical data.
pub struct BoardView {
    /// The settled cells: `grid[y][x]` is column `x` of row `y`.
    pub grid: Seq<Seq<Cell>>,
    /// The piece that falls.
    pub piece: TetroView,
    /// Where the corner of the piece's matrix lies: `(column, row)`.
    pub position: (int, int),
    pub status: GameStatus,
}

impl BoardView {
    /// The board a game starts on.
    pub open spec fn fresh() -> BoardView {
        BoardView {
            grid: Seq::new(BOARD_HEIGHT as nat, |y: int| empty_row()),
            piece: TetroView::of(TetroKind::O),
            position: (4, 0),
            status: GameStatus::Running,
        }
    }

    /// What every board keeps to: the grid has its size, the piece is well
    /// formed and near the board, no full row is left standing, and the game
    /// is over once the top row holds a filled cell.
    pub open spec fn wf(self) -> bool {
        &&& grid_ok(self.grid)
        &&& self.piece.wf()
        &&& -4 < self.position.0 < BOARD_WIDTH
        &&& -4 < self.position.1 < BOARD_HEIGHT
        &&& forall|y: int| 0 <= y < self.grid.len() ==> !is_full(#[trigger] self.grid[y])
        &&& top_filled(self.grid) ==> self.status is Over
    }

    /// The cells the piece fills where it is.
    pub open spec fn piece_cells(self) -> Seq<(int, int)> {
        self.piece.cells_at(self.position.0, self.position.1)
    }

    /// Whether the piece lies on the board with every cell.
    pub open spec fn piece_in_board(self) -> bool {
        forall|i: int|
            0 <= i < self.piece_cells().len() ==> in_board(#[trigger] self.piece_cells()[i])
    }

    /// The cells the piece would fill once moved by `delta`.
    pub open spec fn candidate_cells(self, delta: (int, int)) -> Seq<(int, int)> {
        self.piece.cells_at(self.position.0 + delta.0, self.position.1 + delta.1)
    }

    /// The outcome of moving the piece by `delta`. A move with a part
    /// sideways counts as sideways.
    pub open spec fn outcome(self, delta: (int, int)) -> MoveOutcome {
        classify(self.grid, self.candidate_cells(delta), delta.0 != 0)
    }

    /// Whether the move by `delta` can be made: a piece that locks is written
    /// into the grid where it is, so it has to lie on the board.
    pub open spec fn can_move(self, delta: (int, int)) -> bool {
        self.outcome(delta) is Lock ==> self.piece_in_board()
    }

    /// The board once the piece is locked where it is: its cells are written
    /// into the grid, then full rows are cleared, then the game is over if
    /// the top row holds a filled cell.
    pub open spec fn locked(self) -> BoardView {
        let grid = clear_rows(stamp(self.grid, self.piece_cells(), self.piece.color));
        BoardView {
            grid,
            status: if top_filled(grid) {
                GameStatus::Over
            } else {
                self.status
            },
            ..self
        }
    }

    /// The board with a fresh piece of the given kind at the place where
    /// pieces start.
    pub open spec fn spawned(self, kind: TetroKind) -> BoardView {
        BoardView { piece: TetroView::of(kind), position: (4, 0), ..self }
    }

    /// The board after the move by `delta` was asked for, where `next` is the
    /// kind of the piece that comes if this one locks.
    pub open spec fn moved(self, delta: (int, int), next: TetroKind) -> BoardView {
        match self.outcome(delta) {
            MoveOutcome::Valid => BoardView {
                position: (self.position.0 + delta.0, self.position.1 + delta.1),
                ..self
            },
            MoveOutcome::Lock => self.locked().spawned(next),
            MoveOutcome::Prevent => self,
        }
    }

    /// The move a key asks for, if it asks for one.
    pub open spec fn key_delta(key: Key) -> Option<(int, int)> {
        match key {
            Key::Left => Some((-1, 0)),
            Key::Right => Some((1, 0)),
            Key::Down => Some((0, 1)),
            _ => None,
        }
    }

    /// The board after a key was pressed. A board whose game is over takes no
    /// key. `Space` turns the piece, whether or not it then fits.
    pub open spec fn after_key(self, key: Key, next: TetroKind) -> BoardView {
        if self.status is Over {
            self
        } else {
            match Self::key_delta(key) {
                Some(delta) => self.moved(delta, next),
                None => if key is Space {
                    BoardView { piece: self.piece.rotated(), ..self }
                } else {
                    self
                },
            }
        }
    }

    /// Whether the key can be pressed: the move it asks for, if any, can be
    /// made.
    pub open spec fn can_press(self, key: Key) -> bool {
        self.status is Running ==> match Self::key_delta(key) {
            Some(delta) => self.can_move(delta),
            None => true,
        }
    }

    /// The board with full rows cleared and the game over if the top row
    /// then holds a filled cell.
    pub open spec fn swept(self) -> BoardView {
        let grid = clear_rows(self.grid);
        BoardView {
            grid,
            status: if top_filled(grid) {
                GameStatus::Over
            } else {
                self.status
            },
            ..self
        }
    }

    /// The board after one step of gravity: the piece is moved down, then
    /// full rows are cleared and the top row is looked at once more. A board
    /// whose game is over stays as it is.
    pub open spec fn after_tick(self, next: TetroKind) -> BoardView {
        if self.status is Over {
            self
        } else {
            self.moved((0, 1), next).swept()
        }
    }
}

/// A board that keeps to its rules has nothing to sweep.
pub proof fn lemma_sweep_keeps(board: BoardView)
    requires
        board.wf(),
    ensures
        board.swept() == board,
{
    lemma_clear_nothing(board.grid);
}

/// A move leaves a board that keeps to its rules.
pub proof fn lemma_moved_wf(board: BoardView, delta: (int, int), next: TetroKind)
    requires
        board.wf(),
    ensures
        board.moved(delta, next).wf(),
{
    match board.outcome(delta) {
        MoveOutcome::Valid => {
            let cells = board.candidate_cells(delta);
            lemma_classify_valid(board.grid, cells, delta.0 != 0);
            lemma_cells_at(board.piece, board.position.0 + delta.0, board.position.1 + delta.1);
            let (x, y) = choose|x: int, y: int| board.piece.occupied(x, y);
            let c = (board.position.0 + delta.0 + x, board.position.1 + delta.1 + y);
            assert(board.piece.occupied(
                c.0 - (board.position.0 + delta.0),
                c.1 - (board.position.1 + delta.1),
            ));
            assert(cells.contains(c));
            let i = choose|i: int| 0 <= i < cells.len() && cells[i] == c;
            assert(verdict(board.grid, cells[i], delta.0 != 0) is None);
        },
        MoveOutcome::Lock => {
            let written = stamp(board.grid, board.piece_cells(), board.piece.color);
            assert(grid_ok(written));
            lemma_clear_rows(written);
            lemma_fresh_is_wf(next);
        },
        MoveOutcome::Prevent => {},
    }
}

/// The board of a game.
pub struct Board {
    grid: VecDeque<Vec<Cell>>,
    current_tetro: Tetro,
    current_tetro_position: (i32, i32),
    status: GameStatus,
}

impl View for Board {
    type V = BoardView;

    closed spec fn view(&self) -> BoardView {
        BoardView {
            grid: grid_view(self.grid),
            piece: self.current_tetro@,
            position: (self.current_tetro_position.0 as int, self.current_tetro_position.1 as int),
            status: self.status,
        }
    }
}

/// Draws a number from `low` up to, not including, `high`.
///
/// This is `macroquad::rand::gen_range`, that is `quad_rand::gen_range`,
/// on the generator that the whole program shares. It takes a 32-bit number
/// `k` from the generator and returns `low + (high - low) * k / 2^32`, worked
/// out in 64-bit floating point and cut to a whole number. As `k` is below
/// `2^32` the result is at least `low` and below `high`, so long as the bounds
/// are small enough for the floating-point sum to be exact; the bound asked
/// for here is far below that. Which number comes is not said.
#[verifier::external_body]
fn draw(low: usize, high: usize) -> (drawn: usize)
    requires
        low < high <= 0x10000,
    ensures
        low <= drawn < high,
{
    macroquad::rand::gen_range(low, high)
}

impl Board {
    /// The board a game starts on: an empty grid, a piece of kind `O` at
    /// column 4 of the top row, and the game running.
    pub fn new() -> (board: Board)
        ensures
            board@ == BoardView::fresh(),
            board@.wf(),
    {
        let mut grid: VecDeque<Vec<Cell>> = VecDeque::new();
        let mut y: usize = 0;
        while y < BOARD_HEIGHT
            invariant
                y <= BOARD_HEIGHT,
                grid@.len() == y,
                forall|i: int| 0 <= i < y ==> (#[trigger] grid@[i])@ == empty_row(),
            decreases BOARD_HEIGHT - y,
        {
            grid.push_back(new_row());
            y += 1;
        }
        let board = Board {
            grid,
            current_tetro: Tetro::new(TetroKind::O),
            current_tetro_position: (4, 0),
            status: GameStatus::Running,
        };
        proof {
            assert(board@.grid =~= BoardView::fresh().grid);
            assert(!is_full(empty_row())) by {
                assert(empty_row()[0] == Cell::Empty);
            }
            assert(!top_filled(board@.grid));
        }
        board
    }

    pub fn status(&self) -> (status: GameStatus)
        ensures
            status == self@.status,
    {
        self.status
    }

    /// Where the corner of the piece's matrix lies: `(column, row)`.
    pub fn position(&self) -> (position: (i32, i32))
        ensures
            position.0 == self@.position.0,
            position.1 == self@.position.1,
    {
        self.current_tetro_position
    }

    /// The piece that falls.
    pub fn current_tetro(&self) -> (tetro: &Tetro)
        ensures
            tetro@ == self@.piece,
    {
        &self.current_tetro
    }

    /// The settled cells, row by row from the top.
    pub fn grid(&self) -> (grid: &VecDeque<Vec<Cell>>)
        ensures
            grid_view(*grid) == self@.grid,
    {
        &self.grid
    }

    /// Whether the piece lies on the board with every cell.
    pub fn piece_in_board(&self) -> (inside: bool)
        requires
            self@.wf(),
        ensures
            inside == self@.piece_in_board(),
    {
        let cells = self.current_tetro.get_cells_in_board(self.current_tetro_position);
        let mut i: usize = 0;
        while i < cells.len()
            invariant
                i <= cells.len(),
                as_cells(cells@) == self@.piece_cells(),
                forall|j: int| 0 <= j < i ==> in_board(#[trigger] self@.piece_cells()[j]),
            decreases cells.len() - i,
        {
            let c = cells[i];
            assert(as_cells(cells@)[i as int] == (c.0 as int, c.1 as int));
            if c.0 < 0 || c.0 >= BOARD_WIDTH as i32 || c.1 < 0 || c.1 >= BOARD_HEIGHT as i32 {
                return false;
            }
            i += 1;
        }
        true
    }

    /// Whether the move by `delta` can be asked for: it can unless it would
    /// lock a piece that does not lie on the board, which a turn may have
    /// brought about.
    pub fn can_move(&self, delta: (i8, i8)) -> (ok: bool)
        requires
            self@.wf(),
        ensures
            ok == self@.can_move((delta.0 as int, delta.1 as int)),
    {
        let nx: i32 = self.current_tetro_position.0 + delta.0 as i32;
        let ny: i32 = self.current_tetro_position.1 + delta.1 as i32;
        let outcome = self.valid_move(
            self.current_tetro.get_cells_in_board((nx, ny)),
            delta.0 != 0,
        );
        match outcome {
            MoveOutcome::Lock => self.piece_in_board(),
            _ => true,
        }
    }

    /// Whether the key can be pressed: the move it asks for, if any, can be
    /// asked for.
    pub fn can_press(&self, key: Key) -> (ok: bool)
        requires
            self@.wf(),
        ensures
            ok == self@.can_press(key),
    {
        match self.status {
            GameStatus::Over => true,
            GameStatus::Running => match key {
                Key::Left => self.can_move((-1, 0)),
                Key::Right => self.can_move((1, 0)),
                Key::Down => self.can_move((0, 1)),
                _ => true,
            },
        }
    }

    /// Writes the cells of the piece into the grid, each in the piece's
    /// colour.
    fn write_piece(&mut self)
        requires
            old(self)@.wf(),
            old(self)@.piece_in_board(),
        ensures
            final(self)@ == (BoardView {
                grid: stamp(old(self)@.grid, old(self)@.piece_cells(), old(self)@.piece.color),
                ..old(self)@
            }),
    {
        let ghost before = self@;
        let cells = self.current_tetro.get_cells_in_board(self.current_tetro_position);
        let color = self.current_tetro.color();
        let ghost marks = as_cells(cells@);
        let mut i: usize = 0;
        assert(self@.grid =~~= stamp(before.grid, marks.take(0), color));
        while i < cells.len()
            invariant
                i <= cells.len(),
                grid_ok(before.grid),
                marks == as_cells(cells@),
                marks == before.piece_cells(),
                before.piece_in_board(),
                self@.piece == before.piece,
                self@.position == before.position,
                self@.status == before.status,
                self@.grid == stamp(before.grid, marks.take(i as int), color),
            decreases cells.len() - i,
        {
            let c = cells[i];
            let ghost mark = (c.0 as int, c.1 as int);
            assert(marks[i as int] == mark);
            assert(in_board(before.piece_cells()[i as int]));
            assert(self@.grid.len() == before.grid.len());
            assert(self@.grid[mark.1].len() == before.grid[mark.1].len());
            set_cell(&mut self.grid, c.0 as usize, c.1 as usize, Cell::Filled(color));
            proof {
                let earlier = marks.take(i as int);
                let now = marks.take(i + 1);
                assert(now =~= earlier.push(mark));
                assert forall|m: (int, int)| now.contains(m) <==> (earlier.contains(m) || m
                    == mark) by {
                    if earlier.contains(m) {
                        let j = choose|j: int| 0 <= j < earlier.len() && earlier[j] == m;
                        assert(now[j] == m);
                    }
                    if m == mark {
                        assert(now[i as int] == m);
                    }
                }
                assert(self@.grid =~~= stamp(before.grid, now, color));
            }
            i += 1;
        }
        assert(marks.take(cells.len() as int) =~= marks);
    }

    /// Takes every full row out of the grid and puts as many empty rows on
    /// top.
    fn check_row(&mut self)
        requires
            grid_ok(old(self)@.grid),
        ensures
            final(self)@ == (BoardView { grid: clear_rows(old(self)@.grid), ..old(self)@ }),
            grid_ok(final(self)@.grid),
    {
        let ghost before = self@;
        let ghost g0 = self@.grid;
        let mut shifts: Vec<usize> = Vec::new();
        let mut i: usize = 0;
        while i < self.grid.len()
            invariant
                self@ == before,
                g0 == before.grid,
                grid_ok(g0),
                i <= g0.len(),
                forall|a: int, b: int| 0 <= a < b < shifts.len() ==> shifts@[a] < shifts@[b],
                forall|a: int|
                    0 <= a < shifts.len() ==> (#[trigger] shifts@[a]) < i && is_full(
                        g0[shifts@[a] as int],
                    ),
                forall|y: int|
                    0 <= y < i && is_full(#[trigger] g0[y]) ==> exists|a: int|
                        0 <= a < shifts.len() && #[trigger] shifts@[a] == y,
            decreases g0.len() - i,
        {
            if row_full(&self.grid[i]) {
                let ghost earlier = shifts@;
                shifts.push(i);
                assert forall|y: int| 0 <= y < i + 1 && is_full(#[trigger] g0[y]) implies exists|
                    a: int,
                | 0 <= a < shifts.len() && #[trigger] shifts@[a] == y by {
                    if y < i {
                        let a = choose|a: int| 0 <= a < earlier.len() && earlier[a] == y;
                        assert(shifts@[a] == y);
                    } else {
                        assert(shifts@[earlier.len() as int] == y);
                    }
                }
            }
            i += 1;
        }
        let mut j: usize = 0;
        let ghost mut done: int = 0;
        proof {
            assert(g0.take(0) =~= Seq::<Seq<Cell>>::empty());
            assert(g0.take(0).filter(has_gap()) =~= Seq::<Seq<Cell>>::empty()) by {
                reveal(Seq::filter);
            }
            assert(self@.grid =~= empty_rows(0) + g0.take(0).filter(has_gap()) + g0.skip(0));
        }
        while j < shifts.len()
            invariant
                j <= shifts.len(),
                g0 == before.grid,
                grid_ok(g0),
                forall|a: int, b: int| 0 <= a < b < shifts.len() ==> shifts@[a] < shifts@[b],
                forall|a: int|
                    0 <= a < shifts.len() ==> (#[trigger] shifts@[a]) < g0.len() && is_full(
                        g0[shifts@[a] as int],
                    ),
                forall|y: int|
                    0 <= y < g0.len() && is_full(#[trigger] g0[y]) ==> exists|a: int|
                        0 <= a < shifts.len() && #[trigger] shifts@[a] == y,
                0 <= done <= g0.len(),
                j == 0 ==> done == 0,
                j > 0 ==> done == shifts@[j - 1] + 1,
                g0.take(done).filter(has_gap()).len() == done - j,
                self@.grid == empty_rows(j as nat) + g0.take(done).filter(has_gap()) + g0.skip(
                    done,
                ),
                self@.piece == before.piece,
                self@.position == before.position,
                self@.status == before.status,
            decreases shifts.len() - j,
        {
            let at = shifts[j];
            let ghost cur = self@.grid;
            proof {
                if j > 0 {
                    assert(shifts@[j - 1] < shifts@[j as int]);
                }
                assert forall|y: int| done <= y < at implies !is_full(#[trigger] g0[y]) by {
                    if is_full(g0[y]) {
                        let a = choose|a: int| 0 <= a < shifts.len() && shifts@[a] == y;
                        if a < j - 1 {
                            assert(shifts@[a] < shifts@[j - 1]);
                        } else if a > j {
                            assert(shifts@[j as int] < shifts@[a]);
                        }
                    }
                }
                lemma_clear_step(g0, cur, j as nat, done, at as int);
                assert(cur.len() == g0.len());
            }
            self.grid.remove(at);
            self.grid.push_front(new_row());
            proof {
                assert(self@.grid =~= seq![empty_row()] + cur.remove(at as int));
                done = at + 1;
            }
            j += 1;
        }
        proof {
            assert forall|y: int| done <= y < g0.len() implies !is_full(#[trigger] g0[y]) by {
                if is_full(g0[y]) {
                    let a = choose|a: int| 0 <= a < shifts.len() && shifts@[a] == y;
                    if a < j - 1 {
                        assert(shifts@[a] < shifts@[j - 1]);
                    }
                }
            }
            lemma_clear_done(g0, j as nat, done);
            lemma_clear_rows(g0);
        }
    }

    /// Ends the game if the top row holds a filled cell.
    fn check_lose(&mut self)
        requires
            grid_ok(old(self)@.grid),
        ensures
            final(self)@ == (BoardView {
                status: if top_filled(old(self)@.grid) {
                    GameStatus::Over
                } else {
                    old(self)@.status
                },
                ..old(self)@
            }),
    {
        let mut any = false;
        let mut x: usize = 0;
        while x < self.grid[0].len()
            invariant
                grid_ok(self@.grid),
                self@ == old(self)@,
                x <= self@.grid[0].len(),
                any <==> exists|i: int| 0 <= i < x && #[trigger] self@.grid[0][i] is Filled,
            decreases self@.grid[0].len() - x,
        {
            if let Cell::Filled(_) = self.grid[0][x] {
                any = true;
            }
            x += 1;
        }
        if any {
            self.status = GameStatus::Over;
        }
    }

    /// Puts a fresh piece of the given kind where pieces start.
    fn spawn(&mut self, kind: TetroKind)
        ensures
            final(self)@ == old(self)@.spawned(kind),
    {
        self.current_tetro = Tetro::new(kind);
        self.current_tetro_position = (4, 0);
    }

    /// Puts a fresh piece where pieces start, of a kind drawn at random, each
    /// of the seven as likely as another. Returns the kind.
    fn generate_new_tetro(&mut self) -> (kind: TetroKind)
        ensures
            final(self)@ == old(self)@.spawned(kind),
    {
        let kind = TetroKind::from_index(draw(0, 7));
        self.spawn(kind);
        kind
    }

    /// Asks for the move by `delta` and does all that follows from it but
    /// bringing the next piece.
    fn settle(&mut self, delta: (i8, i8)) -> (outcome: MoveOutcome)
        requires
            old(self)@.wf(),
            old(self)@.can_move((delta.0 as int, delta.1 as int)),
        ensures
            outcome == old(self)@.outcome((delta.0 as int, delta.1 as int)),
            final(self)@ == match outcome {
                MoveOutcome::Valid => BoardView {
                    position: (
                        old(self)@.position.0 + delta.0 as int,
                        old(self)@.position.1 + delta.1 as int,
                    ),
                    ..old(self)@
                },
                MoveOutcome::Lock => old(self)@.locked(),
                MoveOutcome::Prevent => old(self)@,
            },
    {
        let nx: i32 = self.current_tetro_position.0 + delta.0 as i32;
        let ny: i32 = self.current_tetro_position.1 + delta.1 as i32;
        let outcome = self.valid_move(
            self.current_tetro.get_cells_in_board((nx, ny)),
            delta.0 != 0,
        );
        match outcome {
            MoveOutcome::Valid => {
                self.current_tetro_position = (nx, ny);
            },
            MoveOutcome::Lock => {
                self.write_piece();
                self.check_row();
                self.check_lose();
            },
            MoveOutcome::Prevent => {},
        }
        outcome
    }

    /// Asks for the move of the piece by `delta`, given as `(columns, rows)`.
    /// A valid move is made. A move that is prevented changes nothing. A move that locks
    /// leaves the piece where it is and writes it into the grid; then full
    /// rows are cleared, the game is over if the top row holds a filled cell,
    /// and a fresh piece of a kind drawn at random comes in at the top.
    pub fn move_current(&mut self, delta: (i8, i8)) -> (outcome: MoveOutcome)
        requires
            old(self)@.wf(),
            old(self)@.can_move((delta.0 as int, delta.1 as int)),
        ensures
            outcome == old(self)@.outcome((delta.0 as int, delta.1 as int)),
            exists|next: TetroKind|
                final(self)@ == #[trigger] old(self)@.moved(
                    (delta.0 as int, delta.1 as int),
                    next,
                ),
            final(self)@.wf(),
    {
        let ghost before = self@;
        let ghost d = (delta.0 as int, delta.1 as int);
        let outcome = self.settle(delta);
        if let MoveOutcome::Lock = outcome {
            let next = self.generate_new_tetro();
            proof {
                assert(self@ == before.moved(d, next));
                lemma_moved_wf(before, d, next);
            }
        } else {
            proof {
                assert(self@ == before.moved(d, TetroKind::O));
                lemma_moved_wf(before, d, TetroKind::O);
            }
        }
        outcome
    }

    /// As `move_current`, with the kind of the piece that comes after a lock
    /// given by the caller in place of the draw.
    pub fn move_current_with(&mut self, delta: (i8, i8), next: TetroKind) -> (outcome: MoveOutcome)
        requires
            old(self)@.wf(),
            old(self)@.can_move((delta.0 as int, delta.1 as int)),
        ensures
            outcome == old(self)@.outcome((delta.0 as int, delta.1 as int)),
            final(self)@ == old(self)@.moved((delta.0 as int, delta.1 as int), next),
            final(self)@.wf(),
    {
        let ghost before = self@;
        let outcome = self.settle(delta);
        if let MoveOutcome::Lock = outcome {
            self.spawn(next);
        }
        proof {
            lemma_moved_wf(before, (delta.0 as int, delta.1 as int), next);
        }
        outcome
    }

    /// Takes a key: `Left`, `Right` and `Down` ask for a move by one cell,
    /// `Space` turns the piece a quarter turn, whether or not it then fits,
    /// and any other key does nothing. Once the game is over no key does
    /// anything.
    pub fn keydown(&mut self, key: Key)
        requires
            old(self)@.wf(),
            old(self)@.can_press(key),
        ensures
            exists|next: TetroKind| final(self)@ == #[trigger] old(self)@.after_key(key, next),
            old(self)@.status is Over ==> final(self)@ == old(self)@,
            final(self)@.wf(),
    {
        let ghost before = self@;
        if let GameStatus::Running = self.status {
            match key {
                Key::Left => {
                    self.move_current((-1, 0));
                    proof {
                        let next = choose|next: TetroKind|
                            self@ == #[trigger] before.moved((-1, 0), next);
                        assert(self@ == before.after_key(key, next));
                    }
                },
                Key::Right => {
                    self.move_current((1, 0));
                    proof {
                        let next = choose|next: TetroKind|
                            self@ == #[trigger] before.moved((1, 0), next);
                        assert(self@ == before.after_key(key, next));
                    }
                },
                Key::Down => {
                    self.move_current((0, 1));
                    proof {
                        let next = choose|next: TetroKind|
                            self@ == #[trigger] before.moved((0, 1), next);
                        assert(self@ == before.after_key(key, next));
                    }
                },
                Key::Space => {
                    self.current_tetro.rotate();
                    proof {
                        assert(self@ == before.after_key(key, TetroKind::O));
                    }
                },
                _ => {
                    proof {
                        assert(self@ == before.after_key(key, TetroKind::O));
                    }
                },
            }
        } else {
            proof {
                assert(self@ == before.after_key(key, TetroKind::O));
            }
        }
    }

    /// One step of gravity: the piece is asked to move down by one cell, then
    /// full rows are cleared and the game is over if the top row holds a
    /// filled cell. Once the game is over nothing happens.
    pub fn update(&mut self)
        requires
            old(self)@.wf(),
            old(self)@.can_press(Key::Down),
        ensures
            exists|next: TetroKind| final(self)@ == #[trigger] old(self)@.after_tick(next),
            old(self)@.status is Over ==> final(self)@ == old(self)@,
            final(self)@.wf(),
    {
        let ghost before = self@;
        if let GameStatus::Running = self.status {
            self.move_current((0, 1));
            let ghost mid = self@;
            self.check_row();
            self.check_lose();
            proof {
                let next = choose|next: TetroKind| mid == #[trigger] before.moved((0, 1), next);
                assert(self@ == mid.swept());
                assert(self@ == before.after_tick(next));
                lemma_sweep_keeps(mid);
            }
        } else {
            proof {
                assert(self@ == before.after_tick(TetroKind::O));
            }
        }
    }

    /// The outcome of a move that would bring the piece onto `positions`,
    /// each a `(column, row)`; `h_move` tells whether the move is sideways.
    /// The first position that is off the board or on a settled cell decides.
    pub fn valid_move(&self, positions: Vec<(i32, i32)>, h_move: bool) -> (outcome: MoveOutcome)
        requires
            grid_ok(self@.grid),
        ensures
            outcome == classify(self@.grid, as_cells(positions@), h_move),
    {
        let ghost cells = as_cells(positions@);
        let mut i: usize = 0;
        assert(cells.skip(0) =~= cells);
        while i < positions.len()
            invariant
                i <= positions.len(),
                grid_ok(self@.grid),
                cells == as_cells(positions@),
                classify(self@.grid, cells, h_move) == classify(
                    self@.grid,
                    cells.skip(i as int),
                    h_move,
                ),
            decreases positions.len() - i,
        {
            let position = positions[i];
            proof {
                assert(cells.skip(i as int)[0] == (position.0 as int, position.1 as int));
                assert(cells.skip(i as int).drop_first() =~= cells.skip(i + 1));
            }
            if position.0 < 0 || position.0 >= BOARD_WIDTH as i32 {
                return MoveOutcome::Prevent;
            }
            if position.1 < 0 || position.1 >= BOARD_HEIGHT as i32 {
                return MoveOutcome::Lock;
            }
            if let Cell::Filled(_) = self.grid[position.1 as usize][position.0 as usize] {
                if h_move {
                    return MoveOutcome::Prevent;
                }
                return MoveOutcome::Lock;
            }
            i += 1;
        }
        MoveOutcome::Valid
    }
}

} // verus!
