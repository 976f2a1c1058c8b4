//! What holds of every move, lock and turn, proved from the rules of the
//! board and of its pieces.

use crate::board::{
    lemma_classify_same, lemma_classify_valid, lemma_moved_wf, lemma_sweep_keeps, verdict,
    BoardView, Key, MoveOutcome,
};
use crate::grid::{
    clear_rows, empty_row, grid_ok, in_board, is_full, lemma_clear_nothing, lemma_clear_one_row,
    lemma_clear_two_rows, stamp, BOARD_HEIGHT, BOARD_WIDTH,
};
use crate::tetro::{
    lemma_cells_at, lemma_fresh_is_wf, lemma_rotated_is_quarter_turn, TetroKind, TetroView,
};
use vstd::prelude::*;

verus! {

/// A move that brings the piece onto cells of the board that are all empty
/// is valid: the piece moves by exactly `delta`, and nothing else changes.
pub proof fn lemma_free_move_is_valid(board: BoardView, delta: (int, int), next: TetroKind)
    requires
        forall|i: int|
            0 <= i < board.candidate_cells(delta).len() ==> {
                let c = #[trigger] board.candidate_cells(delta)[i];
                in_board(c) && board.grid[c.1][c.0] is Empty
            },
    ensures
        board.outcome(delta) is Valid,
        board.moved(delta, next) == (BoardView {
            position: (board.position.0 + delta.0, board.position.1 + delta.1),
            ..board
        }),
{
    lemma_classify_valid(board.grid, board.candidate_cells(delta), delta.0 != 0);
}

/// The cells a piece would fill after a move are the cells it fills now,
/// each moved by `delta`.
proof fn lemma_candidate_from_piece(board: BoardView, delta: (int, int), i: int)
    requires
        0 <= i < board.candidate_cells(delta).len(),
    ensures
        board.piece_cells().contains(
            (
                board.candidate_cells(delta)[i].0 - delta.0,
                board.candidate_cells(delta)[i].1 - delta.1,
            ),
        ),
{
    let c = board.candidate_cells(delta)[i];
    assert(board.candidate_cells(delta).contains(c));
    lemma_cells_at(board.piece, board.position.0 + delta.0, board.position.1 + delta.1);
    lemma_cells_at(board.piece, board.position.0, board.position.1);
    let back = (c.0 - delta.0, c.1 - delta.1);
    assert(board.piece.occupied(back.0 - board.position.0, back.1 - board.position.1));
}

/// A move sideways that would take a cell of the piece past the left or the
/// right edge is prevented, and the board stays as it is. The piece is taken
/// to lie in rows of the board: a cell below the floor, where a turn may have
/// brought it, could lock the piece first.
pub proof fn lemma_wall_prevents(board: BoardView, dx: int, next: TetroKind)
    requires
        dx != 0,
        forall|i: int|
            0 <= i < board.piece_cells().len() ==> {
                let c = #[trigger] board.piece_cells()[i];
                0 <= c.1 < BOARD_HEIGHT
            },
        exists|i: int|
            0 <= i < board.candidate_cells((dx, 0)).len() && {
                let c = #[trigger] board.candidate_cells((dx, 0))[i];
                c.0 < 0 || c.0 >= BOARD_WIDTH
            },
    ensures
        board.outcome((dx, 0)) is Prevent,
        board.moved((dx, 0), next) == board,
{
    let cells = board.candidate_cells((dx, 0));
    assert forall|i: int| 0 <= i < cells.len() implies {
        let v = verdict(board.grid, #[trigger] cells[i], true);
        v is None || v == Some(MoveOutcome::Prevent)
    } by {
        lemma_candidate_from_piece(board, (dx, 0), i);
        let back = (cells[i].0 - dx, cells[i].1 - 0);
        let j = choose|j: int| 0 <= j < board.piece_cells().len() && board.piece_cells()[j] == back;
        assert(0 <= board.piece_cells()[j].1 < BOARD_HEIGHT);
    }
    lemma_classify_same(board.grid, cells, true, MoveOutcome::Prevent);
}

/// A move down that would take a cell of the piece below the floor locks
/// the piece: it is written into the grid where it was, not where the move
/// would have brought it, full rows are cleared, and the next piece starts
/// at column 4 of the top row. The piece is taken to lie in columns of the
/// board: a cell beside the board, where a turn may have brought it, would
/// prevent the move.
pub proof fn lemma_floor_locks(board: BoardView, next: TetroKind)
    requires
        forall|i: int|
            0 <= i < board.piece_cells().len() ==> {
                let c = #[trigger] board.piece_cells()[i];
                0 <= c.0 < BOARD_WIDTH
            },
        exists|i: int|
            0 <= i < board.candidate_cells((0, 1)).len() && {
                let c = #[trigger] board.candidate_cells((0, 1))[i];
                c.1 >= BOARD_HEIGHT
            },
    ensures
        board.outcome((0, 1)) is Lock,
        board.moved((0, 1), next).grid == clear_rows(
            stamp(board.grid, board.piece_cells(), board.piece.color),
        ),
        board.moved((0, 1), next).piece == TetroView::of(next),
        board.moved((0, 1), next).position == (4int, 0int),
{
    let cells = board.candidate_cells((0, 1));
    assert forall|i: int| 0 <= i < cells.len() implies {
        let v = verdict(board.grid, #[trigger] cells[i], false);
        (v is None || v == Some(MoveOutcome::Lock)) && 0 <= cells[i].0 < BOARD_WIDTH
    } by {
        lemma_candidate_from_piece(board, (0, 1), i);
        let back = (cells[i].0 - 0, cells[i].1 - 1);
        let j = choose|j: int| 0 <= j < board.piece_cells().len() && board.piece_cells()[j] == back;
        assert(0 <= board.piece_cells()[j].0 < BOARD_WIDTH);
    }
    let i = choose|i: int|
        0 <= i < cells.len() && {
            let c = #[trigger] cells[i];
            c.1 >= BOARD_HEIGHT
        };
    assert(verdict(board.grid, cells[i], false) == Some(MoveOutcome::Lock));
    lemma_classify_same(board.grid, cells, false, MoveOutcome::Lock);
}

/// A move sideways that would bring a cell of the piece onto a filled cell
/// is prevented. The piece is taken to come to lie in rows of the board.
pub proof fn lemma_filled_cell_prevents(board: BoardView, delta: (int, int), next: TetroKind)
    requires
        delta.0 != 0,
        forall|i: int|
            0 <= i < board.candidate_cells(delta).len() ==> {
                let c = #[trigger] board.candidate_cells(delta)[i];
                0 <= c.1 < BOARD_HEIGHT
            },
        exists|i: int|
            0 <= i < board.candidate_cells(delta).len() && {
                let c = #[trigger] board.candidate_cells(delta)[i];
                in_board(c) && board.grid[c.1][c.0] is Filled
            },
    ensures
        board.outcome(delta) is Prevent,
        board.moved(delta, next) == board,
{
    let cells = board.candidate_cells(delta);
    assert forall|j: int| 0 <= j < cells.len() implies {
        let v = verdict(board.grid, #[trigger] cells[j], true);
        v is None || v == Some(MoveOutcome::Prevent)
    } by {
        assert(0 <= cells[j].1 < BOARD_HEIGHT);
    }
    lemma_classify_same(board.grid, cells, true, MoveOutcome::Prevent);
}

/// A move straight down, or up, that would bring a cell of the piece onto a
/// filled cell locks the piece. The piece is taken to come to lie in columns
/// of the board.
pub proof fn lemma_filled_cell_locks(board: BoardView, dy: int)
    requires
        forall|i: int|
            0 <= i < board.candidate_cells((0, dy)).len() ==> {
                let c = #[trigger] board.candidate_cells((0, dy))[i];
                0 <= c.0 < BOARD_WIDTH
            },
        exists|i: int|
            0 <= i < board.candidate_cells((0, dy)).len() && {
                let c = #[trigger] board.candidate_cells((0, dy))[i];
                in_board(c) && board.grid[c.1][c.0] is Filled
            },
    ensures
        board.outcome((0, dy)) is Lock,
{
    let cells = board.candidate_cells((0, dy));
    assert forall|j: int| 0 <= j < cells.len() implies {
        let v = verdict(board.grid, #[trigger] cells[j], false);
        v is None || v == Some(MoveOutcome::Lock)
    } by {
        assert(0 <= cells[j].0 < BOARD_WIDTH);
    }
    lemma_classify_same(board.grid, cells, false, MoveOutcome::Lock);
}

/// Where the piece, once written into the grid, fills up one row, the lock
/// takes that row out and puts an empty row on top, and the grid keeps its
/// height.
pub proof fn lemma_lock_clears_row(board: BoardView, full: int)
    requires
        grid_ok(board.grid),
        0 <= full < BOARD_HEIGHT,
        forall|y: int|
            0 <= y < BOARD_HEIGHT ==> (is_full(
                #[trigger] stamp(board.grid, board.piece_cells(), board.piece.color)[y],
            ) <==> y == full),
    ensures
        board.locked().grid == seq![empty_row()] + stamp(
            board.grid,
            board.piece_cells(),
            board.piece.color,
        ).remove(full),
        board.locked().grid[0] == empty_row(),
        board.locked().grid.len() == BOARD_HEIGHT,
{
    lemma_clear_one_row(stamp(board.grid, board.piece_cells(), board.piece.color), full);
}

/// Where the piece, once written into the grid, fills up two rows, the lock
/// takes both out in one go and puts two empty rows on top.
pub proof fn lemma_lock_clears_two_rows(board: BoardView, upper: int, lower: int)
    requires
        grid_ok(board.grid),
        0 <= upper < lower < BOARD_HEIGHT,
        forall|y: int|
            0 <= y < BOARD_HEIGHT ==> (is_full(
                #[trigger] stamp(board.grid, board.piece_cells(), board.piece.color)[y],
            ) <==> (y == upper || y == lower)),
    ensures
        board.locked().grid == seq![empty_row(), empty_row()] + stamp(
            board.grid,
            board.piece_cells(),
            board.piece.color,
        ).remove(lower).remove(upper),
        board.locked().grid.len() == BOARD_HEIGHT,
{
    lemma_clear_two_rows(stamp(board.grid, board.piece_cells(), board.piece.color), upper, lower);
}

/// A piece that locks with a cell in the top row of the board ends the game,
/// unless the lock fills up a row: then rows come down and the top row is
/// empty again.
pub proof fn lemma_lock_in_top_row_ends_game(board: BoardView, next: TetroKind)
    requires
        grid_ok(board.grid),
        exists|i: int|
            0 <= i < board.piece_cells().len() && {
                let c = #[trigger] board.piece_cells()[i];
                c.1 == 0 && 0 <= c.0 < BOARD_WIDTH
            },
        forall|y: int|
            0 <= y < BOARD_HEIGHT ==> !is_full(
                #[trigger] stamp(board.grid, board.piece_cells(), board.piece.color)[y],
            ),
    ensures
        board.locked().status is Over,
        board.locked().spawned(next).status is Over,
{
    let written = stamp(board.grid, board.piece_cells(), board.piece.color);
    lemma_clear_nothing(written);
    let i = choose|i: int|
        0 <= i < board.piece_cells().len() && {
            let c = #[trigger] board.piece_cells()[i];
            c.1 == 0 && 0 <= c.0 < BOARD_WIDTH
        };
    let c = board.piece_cells()[i];
    assert(board.piece_cells().contains(c));
    assert(written[0][c.0] is Filled);
}

/// Once the game is over, neither a key nor a step of gravity changes the
/// board.
pub proof fn lemma_over_is_final(board: BoardView, key: Key, next: TetroKind)
    requires
        board.status is Over,
    ensures
        board.after_key(key, next) == board,
        board.after_tick(next) == board,
{
}

/// A step of gravity does what the key `Down` does: the second look at the
/// rows and at the top row that the step takes finds nothing to do.
pub proof fn lemma_tick_is_key_down(board: BoardView, next: TetroKind)
    requires
        board.wf(),
    ensures
        board.after_tick(next) == board.after_key(Key::Down, next),
{
    lemma_moved_wf(board, (0, 1), next);
    lemma_sweep_keeps(board.moved((0, 1), next));
}

/// Whatever is asked of a board that keeps to its rules, a move, a key or a
/// step of gravity, the board that comes of it keeps to them too: the grid
/// keeps its size, and no full row is left standing.
pub proof fn lemma_steps_keep_wf(board: BoardView, delta: (int, int), key: Key, next: TetroKind)
    requires
        board.wf(),
    ensures
        board.moved(delta, next).wf(),
        board.after_key(key, next).wf(),
        board.after_tick(next).wf(),
{
    lemma_moved_wf(board, delta, next);
    lemma_moved_wf(board, (0, 1), next);
    lemma_sweep_keeps(board.moved((0, 1), next));
    match BoardView::key_delta(key) {
        Some(d) => {
            lemma_moved_wf(board, d, next);
        },
        None => {
            lemma_rotated_is_quarter_turn(board.piece);
        },
    }
}

/// A game that is over stays over, whatever is asked of the board.
pub proof fn lemma_over_stays(board: BoardView, delta: (int, int), key: Key, next: TetroKind)
    requires
        board.status is Over,
    ensures
        board.moved(delta, next).status is Over,
        board.after_key(key, next).status is Over,
        board.after_tick(next).status is Over,
{
}

/// Four quarter turns bring a well-formed piece back to where it was.
pub proof fn lemma_four_turns(piece: TetroView)
    requires
        piece.wf(),
    ensures
        piece.rotated().rotated().rotated().rotated() == piece,
{
    let once = piece.rotated();
    let twice = once.rotated();
    let thrice = twice.rotated();
    let back = thrice.rotated();
    lemma_rotated_is_quarter_turn(piece);
    lemma_rotated_is_quarter_turn(once);
    lemma_rotated_is_quarter_turn(twice);
    lemma_rotated_is_quarter_turn(thrice);
    let n = piece.dim();
    assert forall|r: int, c: int| 0 <= r < n && 0 <= c < n implies back.cells[r][c]
        == piece.cells[r][c] by {
        assert(back.cells[r][c] == thrice.cells[n - 1 - c][r]);
        assert(thrice.cells[n - 1 - c][r] == twice.cells[n - 1 - r][n - 1 - c]);
        assert(twice.cells[n - 1 - r][n - 1 - c] == once.cells[c][n - 1 - r]);
        assert(once.cells[c][n - 1 - r] == piece.cells[r][c]);
    }
    assert(back.cells =~~= piece.cells);
}

/// A quarter turn leaves a piece as it is if its matrix is filled all over.
pub proof fn lemma_turn_keeps_full_square(piece: TetroView)
    requires
        piece.wf(),
        forall|x: int, y: int|
            0 <= x < piece.dim() && 0 <= y < piece.dim() ==> #[trigger] piece.cells[y][x],
    ensures
        piece.rotated() == piece,
{
    lemma_rotated_is_quarter_turn(piece);
    assert(piece.rotated().cells =~~= piece.cells);
}

/// A fresh piece of kind `O` is such a piece: a quarter turn leaves it as it
/// is.
pub proof fn lemma_turn_keeps_o()
    ensures
        TetroView::of(TetroKind::O).rotated() == TetroView::of(TetroKind::O),
{
    lemma_fresh_is_wf(TetroKind::O);
    lemma_turn_keeps_full_square(TetroView::of(TetroKind::O));
}

} // verus!
