//! The grid of settled cells: its size, how a piece is written into it, and
//! how full rows are cleared.

use crate::tetro::{matrix, Color};
use std::collections::VecDeque;
use vstd::prelude::*;

verus! {

/// The number of columns of the board.
pub const BOARD_WIDTH: usize = 10;

/// The number of rows of the board. Row 0 is the top.
pub const BOARD_HEIGHT: usize = 20;

/// One cell of the grid.
#[derive(Clone, Copy, PartialEq, Eq, Debug, Structural)]
pub enum Cell {
    Empty,
    Filled(Color),
}

/// Whether a cell `(column, row)` lies on the board.
pub open spec fn in_board(c: (int, int)) -> bool {
    0 <= c.0 < BOARD_WIDTH && 0 <= c.1 < BOARD_HEIGHT
}

/// A grid has `BOARD_HEIGHT` rows of `BOARD_WIDTH` cells.
pub open spec fn grid_ok(grid: Seq<Seq<Cell>>) -> bool {
    &&& grid.len() == BOARD_HEIGHT
    &&& forall|y: int| 0 <= y < grid.len() ==> (#[trigger] grid[y]).len() == BOARD_WIDTH
}

/// The grid with each of `cells` filled in `color`.
pub open spec fn stamp(grid: Seq<Seq<Cell>>, cells: Seq<(int, int)>, color: Color) -> Seq<
    Seq<Cell>,
> {
    Seq::new(
        grid.len(),
        |y: int|
            Seq::new(
                grid[y].len(),
                |x: int|
                    if cells.contains((x, y)) {
                        Cell::Filled(color)
                    } else {
                        grid[y][x]
                    },
            ),
    )
}

/// A row of the board with nothing in it.
pub open spec fn empty_row() -> Seq<Cell> {
    Seq::new(BOARD_WIDTH as nat, |x: int| Cell::Empty)
}

/// As many empty rows as asked for.
pub open spec fn empty_rows(count: nat) -> Seq<Seq<Cell>> {
    Seq::new(count, |y: int| empty_row())
}

/// Whether every cell of a row is filled.
pub open spec fn is_full(row: Seq<Cell>) -> bool {
    forall|x: int| 0 <= x < row.len() ==> row[x] is Filled
}

/// The test for a row that stays when full rows are cleared.
pub open spec fn has_gap() -> spec_fn(Seq<Cell>) -> bool {
    |row: Seq<Cell>| !is_full(row)
}

/// The grid with every full row taken out and as many empty rows put on
/// top: the rows that stay keep their order, and the grid its height.
pub open spec fn clear_rows(grid: Seq<Seq<Cell>>) -> Seq<Seq<Cell>> {
    let kept = grid.filter(has_gap());
    empty_rows((grid.len() - kept.len()) as nat) + kept
}

/// Whether the top row holds a filled cell.
pub open spec fn top_filled(grid: Seq<Seq<Cell>>) -> bool {
    exists|x: int| 0 <= x < grid[0].len() && #[trigger] grid[0][x] is Filled
}

/// The grid of a board as rows of cells.
pub open spec fn grid_view(grid: VecDeque<Vec<Cell>>) -> Seq<Seq<Cell>> {
    matrix(grid@)
}

/// A filter leaves a sequence as it is if every item passes.
pub(crate) proof fn lemma_filter_all<A>(s: Seq<A>, pred: spec_fn(A) -> bool)
    requires
        forall|i: int| 0 <= i < s.len() ==> pred(#[trigger] s[i]),
    ensures
        s.filter(pred) == s,
    decreases s.len(),
{
    reveal(Seq::filter);
    if s.len() > 0 {
        lemma_filter_all(s.drop_last(), pred);
        assert(s.drop_last().push(s.last()) =~= s);
    }
}

/// Clearing the full rows of a grid leaves a grid of the same size in which
/// no row is full.
pub proof fn lemma_clear_rows(grid: Seq<Seq<Cell>>)
    requires
        grid_ok(grid),
    ensures
        grid_ok(clear_rows(grid)),
        forall|y: int| 0 <= y < clear_rows(grid).len() ==> !is_full(#[trigger] clear_rows(grid)[y]),
{
    let kept = grid.filter(has_gap());
    let cleared = clear_rows(grid);
    grid.lemma_filter_len(has_gap());
    assert(!is_full(empty_row())) by {
        assert(empty_row()[0] == Cell::Empty);
    }
    assert forall|y: int| 0 <= y < cleared.len() implies (#[trigger] cleared[y]).len()
        == BOARD_WIDTH && !is_full(cleared[y]) by {
        let top = grid.len() - kept.len();
        if y >= top {
            let row = kept[y - top];
            grid.lemma_filter_pred(has_gap(), y - top);
            assert(kept.contains(row));
            grid.lemma_filter_contains_rev(has_gap(), row);
            let at = choose|at: int| 0 <= at < grid.len() && grid[at] == row;
            assert(grid[at].len() == BOARD_WIDTH);
        }
    }
}

/// Where no row is full, clearing rows changes nothing.
pub proof fn lemma_clear_nothing(grid: Seq<Seq<Cell>>)
    requires
        forall|y: int| 0 <= y < grid.len() ==> !is_full(#[trigger] grid[y]),
    ensures
        clear_rows(grid) == grid,
{
    lemma_filter_all(grid, has_gap());
    assert(clear_rows(grid) =~= grid);
}

/// A row that a filter drops can as well be taken out before.
pub(crate) proof fn lemma_filter_remove<A>(s: Seq<A>, pred: spec_fn(A) -> bool, i: int)
    requires
        0 <= i < s.len(),
        !pred(s[i]),
    ensures
        s.filter(pred) == s.remove(i).filter(pred),
{
    let front = s.take(i);
    let back = s.skip(i + 1);
    front.lemma_filter_push(s[i], pred);
    Seq::filter_distributes_over_add(front.push(s[i]), back, pred);
    Seq::filter_distributes_over_add(front, back, pred);
    assert(s =~= front.push(s[i]) + back);
    assert(s.remove(i) =~= front + back);
}

/// Where one row is full, clearing rows takes it out and puts an empty row
/// on top; the grid keeps its height.
pub proof fn lemma_clear_one_row(grid: Seq<Seq<Cell>>, full: int)
    requires
        0 <= full < grid.len(),
        forall|y: int| 0 <= y < grid.len() ==> (is_full(#[trigger] grid[y]) <==> y == full),
    ensures
        clear_rows(grid) == seq![empty_row()] + grid.remove(full),
        clear_rows(grid).len() == grid.len(),
{
    let rest = grid.remove(full);
    lemma_filter_remove(grid, has_gap(), full);
    assert forall|y: int| 0 <= y < rest.len() implies has_gap()(#[trigger] rest[y]) by {
        if y < full {
            assert(rest[y] == grid[y]);
        } else {
            assert(rest[y] == grid[y + 1]);
        }
    }
    lemma_filter_all(rest, has_gap());
    assert(empty_rows(1) =~= seq![empty_row()]);
}

/// Where two rows are full, clearing rows takes both out at once and puts
/// two empty rows on top.
pub proof fn lemma_clear_two_rows(grid: Seq<Seq<Cell>>, upper: int, lower: int)
    requires
        0 <= upper < lower < grid.len(),
        forall|y: int|
            0 <= y < grid.len() ==> (is_full(#[trigger] grid[y]) <==> (y == upper || y == lower)),
    ensures
        clear_rows(grid) == seq![empty_row(), empty_row()] + grid.remove(lower).remove(upper),
        clear_rows(grid).len() == grid.len(),
{
    let once = grid.remove(lower);
    let rest = once.remove(upper);
    lemma_filter_remove(grid, has_gap(), lower);
    assert(once[upper] == grid[upper]);
    lemma_filter_remove(once, has_gap(), upper);
    assert forall|y: int| 0 <= y < rest.len() implies has_gap()(#[trigger] rest[y]) by {
        if y < upper {
            assert(rest[y] == grid[y]);
        } else if y < lower - 1 {
            assert(rest[y] == grid[y + 1]);
        } else {
            assert(rest[y] == grid[y + 2]);
        }
    }
    lemma_filter_all(rest, has_gap());
    assert(empty_rows(2) =~= seq![empty_row(), empty_row()]);
}

/// One step of clearing rows one by one. Say the rows above row `done` are
/// dealt with: the `cleared` full ones among them are gone, with as many
/// empty rows on top. If the next full row is row `at`, taking it out and
/// putting an empty row on top deals with the rows down to `at`.
pub(crate) proof fn lemma_clear_step(
    grid: Seq<Seq<Cell>>,
    cur: Seq<Seq<Cell>>,
    cleared: nat,
    done: int,
    at: int,
)
    requires
        0 <= done <= at < grid.len(),
        cur == empty_rows(cleared) + grid.take(done).filter(has_gap()) + grid.skip(done),
        grid.take(done).filter(has_gap()).len() == done - cleared,
        forall|y: int| done <= y < at ==> !is_full(#[trigger] grid[y]),
        is_full(grid[at]),
    ensures
        cur[at] == grid[at],
        seq![empty_row()] + cur.remove(at) == empty_rows(cleared + 1) + grid.take(at + 1).filter(
            has_gap(),
        ) + grid.skip(at + 1),
        grid.take(at + 1).filter(has_gap()).len() == at + 1 - (cleared + 1),
{
    let kept = grid.take(done).filter(has_gap());
    let between = grid.subrange(done, at);
    assert forall|y: int| 0 <= y < between.len() implies has_gap()(#[trigger] between[y]) by {
        assert(between[y] == grid[done + y]);
    }
    lemma_filter_all(between, has_gap());
    assert(grid.take(at) =~= grid.take(done) + between);
    Seq::filter_distributes_over_add(grid.take(done), between, has_gap());
    assert(grid.take(at + 1) =~= grid.take(at).push(grid[at]));
    grid.take(at).lemma_filter_push(grid[at], has_gap());
    assert(grid.take(at + 1).filter(has_gap()) == kept + between);
    let top = empty_rows(cleared);
    let before = top + kept;
    assert(cur == before + grid.skip(done));
    assert(before.len() == done);
    assert(cur[at] == grid.skip(done)[at - done]);
    let lhs = seq![empty_row()] + cur.remove(at);
    let rhs = empty_rows(cleared + 1) + (kept + between) + grid.skip(at + 1);
    assert(lhs.len() == rhs.len());
    assert forall|y: int| 0 <= y < lhs.len() implies lhs[y] == rhs[y] by {
        if y == 0 {
        } else if y <= cleared {
            assert(cur.remove(at)[y - 1] == cur[y - 1]);
            assert(cur[y - 1] == top[y - 1]);
        } else if y <= done {
            assert(cur.remove(at)[y - 1] == cur[y - 1]);
            assert(cur[y - 1] == kept[y - 1 - cleared]);
        } else if y <= at {
            assert(cur.remove(at)[y - 1] == cur[y - 1]);
            assert(cur[y - 1] == grid[y - 1]);
            assert(between[y - 1 - done] == grid[y - 1]);
        } else {
            assert(cur.remove(at)[y - 1] == cur[y]);
            assert(cur[y] == grid[y]);
        }
    }
    assert(lhs =~= rhs);
}

/// The end of clearing rows one by one: with no full row left from row
/// `done` on, the grid is the one that clearing all rows at once gives.
pub(crate) proof fn lemma_clear_done(grid: Seq<Seq<Cell>>, cleared: nat, done: int)
    requires
        0 <= done <= grid.len(),
        grid.take(done).filter(has_gap()).len() == done - cleared,
        forall|y: int| done <= y < grid.len() ==> !is_full(#[trigger] grid[y]),
    ensures
        empty_rows(cleared) + grid.take(done).filter(has_gap()) + grid.skip(done) == clear_rows(
            grid,
        ),
{
    let rest = grid.skip(done);
    let kept = grid.take(done).filter(has_gap());
    assert forall|y: int| 0 <= y < rest.len() implies has_gap()(#[trigger] rest[y]) by {
        assert(rest[y] == grid[done + y]);
    }
    lemma_filter_all(rest, has_gap());
    assert(grid =~= grid.take(done) + rest);
    Seq::filter_distributes_over_add(grid.take(done), rest, has_gap());
    assert(grid.filter(has_gap()) == kept + rest);
    assert(empty_rows(cleared) + kept + rest =~= empty_rows(cleared) + (kept + rest));
}

/// A row of the board with nothing in it.
pub(crate) fn new_row() -> (row: Vec<Cell>)
    ensures
        row@ == empty_row(),
{
    let mut row: Vec<Cell> = Vec::new();
    let mut x: usize = 0;
    while x < BOARD_WIDTH
        invariant
            x <= BOARD_WIDTH,
            row.len() == x,
            forall|i: int| 0 <= i < x ==> row@[i] == Cell::Empty,
        decreases BOARD_WIDTH - x,
    {
        row.push(Cell::Empty);
        x += 1;
    }
    assert(row@ =~= empty_row());
    row
}

/// Whether a row of the grid is filled from end to end.
pub(crate) fn row_full(row: &Vec<Cell>) -> (full: bool)
    ensures
        full == is_full(row@),
{
    let mut x: usize = 0;
    while x < row.len()
        invariant
            x <= row.len(),
            forall|i: int| 0 <= i < x ==> row@[i] is Filled,
        decreases row.len() - x,
    {
        if let Cell::Empty = row[x] {
            return false;
        }
        x += 1;
    }
    true
}

/// Writes `cell` into column `x` of row `y` of the grid.
pub(crate) fn set_cell(grid: &mut VecDeque<Vec<Cell>>, x: usize, y: usize, cell: Cell)
    requires
        y < old(grid)@.len(),
        x < old(grid)@[y as int]@.len(),
    ensures
        grid_view(*final(grid)) == grid_view(*old(grid)).update(
            y as int,
            grid_view(*old(grid))[y as int].update(x as int, cell),
        ),
{
    let ghost before = grid_view(*grid);
    if let Some(mut row) = grid.remove(y) {
        row[x] = cell;
        grid.insert(y, row);
    }
    assert(grid_view(*grid) =~= before.update(y as int, before[y as int].update(x as int, cell)));
}

} // verus!
