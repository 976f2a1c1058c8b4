//! Pieces: the seven kinds, their shapes, and how a shape turns and lands on
//! the board.

use vstd::prelude::*;

verus! {

/// The seven kinds of piece.
#[derive(Clone, Copy, PartialEq, Eq, Debug, Structural)]
pub enum TetroKind {
    I,
    O,
    T,
    J,
    L,
    S,
    Z,
}

/// The colour a cell is drawn in. It plays no part in the rules.
#[derive(Clone, Copy, PartialEq, Eq, Debug, Structural)]
pub enum Color {
    Blue,
    Yellow,
    Purple,
    DarkBlue,
    Orange,
    Green,
    Red,
}

impl TetroKind {
    /// The side of the square matrix that holds a piece of this kind.
    pub open spec fn dim(self) -> int {
        match self {
            TetroKind::I => 4,
            TetroKind::O => 2,
            _ => 3,
        }
    }

    /// The point a piece of this kind turns about, in half cells: the centre
    /// of a 4x4 matrix, one and a half cells from its corner, is `(3, 3)`.
    pub open spec fn origin(self) -> (int, int) {
        match self {
            TetroKind::I => (3, 3),
            TetroKind::O => (1, 1),
            _ => (2, 2),
        }
    }

    pub open spec fn color(self) -> Color {
        match self {
            TetroKind::I => Color::Blue,
            TetroKind::O => Color::Yellow,
            TetroKind::T => Color::Purple,
            TetroKind::J => Color::DarkBlue,
            TetroKind::L => Color::Orange,
            TetroKind::S => Color::Green,
            TetroKind::Z => Color::Red,
        }
    }

    /// Whether a fresh piece of this kind fills column `x` of row `y` of its
    /// matrix.
    pub open spec fn occupies(self, x: int, y: int) -> bool {
        match self {
            TetroKind::I => y == 1,
            TetroKind::O => true,
            TetroKind::T => y == 0 || (x == 1 && y == 1),
            TetroKind::J => x == 1 || (x == 0 && y == 2),
            TetroKind::L => x == 1 || (x == 2 && y == 2),
            TetroKind::S => (y == 0 && x >= 1) || (y == 1 && x <= 1),
            TetroKind::Z => (y == 0 && x <= 1) || (y == 1 && x >= 1),
        }
    }

    /// The kinds in the order in which a drawn number picks them.
    pub open spec fn nth(i: int) -> TetroKind {
        if i == 0 {
            TetroKind::I
        } else if i == 1 {
            TetroKind::J
        } else if i == 2 {
            TetroKind::L
        } else if i == 3 {
            TetroKind::O
        } else if i == 4 {
            TetroKind::S
        } else if i == 5 {
            TetroKind::T
        } else {
            TetroKind::Z
        }
    }

    /// The kind that the drawn number `index` stands for.
    pub fn from_index(index: usize) -> (kind: TetroKind)
        requires
            index < 7,
        ensures
            kind == TetroKind::nth(index as int),
    {
        let available = [
            TetroKind::I,
            TetroKind::J,
            TetroKind::L,
            TetroKind::O,
            TetroKind::S,
            TetroKind::T,
            TetroKind::Z,
        ];
        available[index]
    }
}

/// What a piece is, as plain mathematical data.
pub struct TetroView {
    pub kind: TetroKind,
    /// The occupancy matrix: `cells[y][x]` tells whether column `x` of row
    /// `y` is filled.
    pub cells: Seq<Seq<bool>>,
    /// The point the piece turns about, in half cells.
    pub origin: (int, int),
    pub color: Color,
}

impl TetroView {
    /// A fresh piece of the given kind.
    pub open spec fn of(kind: TetroKind) -> TetroView {
        TetroView {
            kind,
            cells: Seq::new(
                kind.dim() as nat,
                |y: int| Seq::new(kind.dim() as nat, |x: int| kind.occupies(x, y)),
            ),
            origin: kind.origin(),
            color: kind.color(),
        }
    }

    pub open spec fn dim(self) -> int {
        self.cells.len() as int
    }

    /// Whether the matrix holds column `x` of row `y` and it is filled.
    pub open spec fn occupied(self, x: int, y: int) -> bool {
        &&& 0 <= y < self.cells.len()
        &&& 0 <= x < self.cells[y].len()
        &&& self.cells[y][x]
    }

    /// A piece is a square matrix of its kind's size with at least one cell
    /// filled, and carries its kind's origin and colour.
    pub open spec fn wf(self) -> bool {
        &&& self.dim() == self.kind.dim()
        &&& forall|y: int| 0 <= y < self.dim() ==> (#[trigger] self.cells[y]).len() == self.dim()
        &&& self.origin == self.kind.origin()
        &&& self.color == self.kind.color()
        &&& exists|x: int, y: int| self.occupied(x, y)
    }

    /// Where a quarter turn clockwise about the origin takes the cell in
    /// column `x` of row `y`. About an origin at `(ox, oy)`, in cells, the
    /// turn takes `(x, y)` to `(ox - (y - oy), oy + (x - ox))`; the origin is
    /// held in half cells, hence the halving.
    pub open spec fn image(self, x: int, y: int) -> (int, int) {
        ((self.origin.0 + self.origin.1 - 2 * y) / 2, (self.origin.1 - self.origin.0 + 2 * x) / 2)
    }

    /// The piece after a quarter turn clockwise: the matrix keeps its size,
    /// and a cell of it is filled where a filled cell lands.
    #[verifier::opaque]
    pub open spec fn rotated(self) -> TetroView {
        TetroView {
            kind: self.kind,
            cells: Seq::new(
                self.cells.len(),
                |r: int|
                    Seq::new(
                        self.cells.len(),
                        |c: int|
                            exists|x: int, y: int|
                                #[trigger] self.occupied(x, y) && self.image(x, y) == (c, r),
                    ),
            ),
            origin: self.origin,
            color: self.color,
        }
    }

    /// The filled cells among the first `k` of row `row`, from the left, as
    /// they lie on the board when the row's first cell is at column `px` of
    /// board row `y`.
    pub open spec fn row_cells(row: Seq<bool>, k: int, px: int, y: int) -> Seq<(int, int)>
        decreases k,
    {
        if k <= 0 {
            Seq::empty()
        } else {
            let rest = Self::row_cells(row, k - 1, px, y);
            if row[k - 1] {
                rest.push((px + k - 1, y))
            } else {
                rest
            }
        }
    }

    /// The filled cells of the first `k` rows, row by row.
    pub open spec fn cells_upto(self, k: int, px: int, py: int) -> Seq<(int, int)>
        decreases k,
    {
        if k <= 0 {
            Seq::empty()
        } else {
            self.cells_upto(k - 1, px, py) + Self::row_cells(
                self.cells[k - 1],
                self.cells[k - 1].len() as int,
                px,
                py + k - 1,
            )
        }
    }

    /// The board cells `(column, row)` that the piece fills when the corner
    /// of its matrix lies at column `px` of row `py`: rows from the top, each
    /// from the left.
    pub open spec fn cells_at(self, px: int, py: int) -> Seq<(int, int)> {
        self.cells_upto(self.cells.len() as int, px, py)
    }

    /// Whether `w` is the greatest number of filled cells that a row holds.
    pub open spec fn is_width(self, w: nat) -> bool {
        &&& forall|y: int| 0 <= y < self.cells.len() ==> #[trigger] count_filled(self.cells[y]) <= w
        &&& exists|y: int| 0 <= y < self.cells.len() && #[trigger] count_filled(self.cells[y]) == w
    }

    /// The rows that are filled from end to end.
    pub open spec fn full_rows(self) -> Seq<Seq<bool>> {
        self.cells.filter(all_filled())
    }
}

/// The number of filled cells in a row.
pub open spec fn count_filled(row: Seq<bool>) -> nat {
    row.filter(|b: bool| b).len()
}

/// The test for a row without a gap.
pub open spec fn all_filled() -> spec_fn(Seq<bool>) -> bool {
    |row: Seq<bool>| forall|x: int| 0 <= x < row.len() ==> row[x]
}

/// A vector of rows as a matrix.
pub open spec fn matrix<T>(rows: Seq<Vec<T>>) -> Seq<Seq<T>> {
    Seq::new(rows.len(), |y: int| rows[y]@)
}

/// Cells of the board as whole numbers.
pub open spec fn as_cells(cells: Seq<(i32, i32)>) -> Seq<(int, int)> {
    cells.map_values(|c: (i32, i32)| (c.0 as int, c.1 as int))
}

/// A piece: a shape that can be turned and laid on the board.
pub struct Tetro {
    kind: TetroKind,
    cells: Vec<Vec<bool>>,
    origin: (usize, usize),
    color: Color,
}

impl View for Tetro {
    type V = TetroView;

    closed spec fn view(&self) -> TetroView {
        TetroView {
            kind: self.kind,
            cells: matrix(self.cells@),
            origin: (self.origin.0 as int, self.origin.1 as int),
            color: self.color,
        }
    }
}

impl Tetro {
    /// A fresh piece of the given kind.
    pub fn new(kind: TetroKind) -> (tetro: Tetro)
        ensures
            tetro@ == TetroView::of(kind),
            tetro@.wf(),
    {
        let tetro = match kind {
            TetroKind::I => Tetro {
                kind,
                cells: vec![
                    vec![false, false, false, false],
                    vec![true, true, true, true],
                    vec![false, false, false, false],
                    vec![false, false, false, false],
                ],
                origin: (3, 3),
                color: Color::Blue,
            },
            TetroKind::O => Tetro {
                kind,
                cells: vec![vec![true, true], vec![true, true]],
                origin: (1, 1),
                color: Color::Yellow,
            },
            TetroKind::T => Tetro {
                kind,
                cells: vec![
                    vec![true, true, true],
                    vec![false, true, false],
                    vec![false, false, false],
                ],
                origin: (2, 2),
                color: Color::Purple,
            },
            TetroKind::J => Tetro {
                kind,
                cells: vec![
                    vec![false, true, false],
                    vec![false, true, false],
                    vec![true, true, false],
                ],
                origin: (2, 2),
                color: Color::DarkBlue,
            },
            TetroKind::L => Tetro {
                kind,
                cells: vec![
                    vec![false, true, false],
                    vec![false, true, false],
                    vec![false, true, true],
                ],
                origin: (2, 2),
                color: Color::Orange,
            },
            TetroKind::S => Tetro {
                kind,
                cells: vec![
                    vec![false, true, true],
                    vec![true, true, false],
                    vec![false, false, false],
                ],
                origin: (2, 2),
                color: Color::Green,
            },
            TetroKind::Z => Tetro {
                kind,
                cells: vec![
                    vec![true, true, false],
                    vec![false, true, true],
                    vec![false, false, false],
                ],
                origin: (2, 2),
                color: Color::Red,
            },
        };
        proof {
            assert(tetro@.cells =~~= TetroView::of(kind).cells);
            lemma_fresh_is_wf(kind);
        }
        tetro
    }

    pub fn kind(&self) -> (kind: TetroKind)
        ensures
            kind == self@.kind,
    {
        self.kind
    }

    pub fn color(&self) -> (color: Color)
        ensures
            color == self@.color,
    {
        self.color
    }

    /// The point the piece turns about, in half cells.
    pub fn origin(&self) -> (origin: (usize, usize))
        ensures
            origin.0 == self@.origin.0,
            origin.1 == self@.origin.1,
    {
        self.origin
    }

    /// The occupancy matrix, row by row.
    pub fn cells(&self) -> (cells: &Vec<Vec<bool>>)
        ensures
            matrix(cells@) == self@.cells,
    {
        &self.cells
    }

    /// The greatest number of filled cells that a row of the matrix holds.
    pub fn width(&self) -> (w: usize)
        requires
            self@.wf(),
        ensures
            self@.is_width(w as nat),
    {
        let n = self.cells.len();
        let mut best: usize = count_row(&self.cells[0]);
        let mut y: usize = 1;
        assert(self@.cells[0] == self.cells@[0]@);
        while y < n
            invariant
                1 <= y <= n,
                n == self.cells.len(),
                self@.wf(),
                best <= 4,
                forall|j: int| 0 <= j < y ==> #[trigger] count_filled(self@.cells[j]) <= best,
                exists|j: int| 0 <= j < y && #[trigger] count_filled(self@.cells[j]) == best,
            decreases n - y,
        {
            let here = count_row(&self.cells[y]);
            assert(self@.cells[y as int] == self.cells@[y as int]@);
            if here > best {
                best = here;
            }
            y += 1;
        }
        best
    }

    /// The number of rows of the matrix that are filled from end to end.
    pub fn hieght(&self) -> (h: usize)
        requires
            self@.wf(),
        ensures
            h == self@.full_rows().len(),
    {
        let n = self.cells.len();
        let mut full: usize = 0;
        let mut y: usize = 0;
        while y < n
            invariant
                y <= n,
                n == self.cells.len(),
                full == self@.cells.take(y as int).filter(all_filled()).len(),
                full <= y,
            decreases n - y,
        {
            let whole = row_is_full(&self.cells[y]);
            proof {
                let rows = self@.cells;
                assert(rows.take(y + 1) =~= rows.take(y as int).push(rows[y as int]));
                rows.take(y as int).lemma_filter_push(rows[y as int], all_filled());
            }
            if whole {
                full += 1;
            }
            y += 1;
        }
        proof {
            assert(self@.cells.take(n as int) =~= self@.cells);
        }
        full
    }

    /// The board cells `(column, row)` that the piece fills when the corner
    /// of its matrix lies at `position`. Nothing keeps them on the board:
    /// that is for the caller to test.
    pub fn get_cells_in_board(&self, position: (i32, i32)) -> (cells: Vec<(i32, i32)>)
        requires
            self@.wf(),
            position.0 + self@.dim() <= i32::MAX,
            position.1 + self@.dim() <= i32::MAX,
        ensures
            as_cells(cells@) == self@.cells_at(position.0 as int, position.1 as int),
    {
        let n = self.cells.len();
        let ghost px = position.0 as int;
        let ghost py = position.1 as int;
        let mut cells: Vec<(i32, i32)> = Vec::new();
        let mut y: usize = 0;
        assert(as_cells(cells@) =~= self@.cells_upto(0, px, py));
        while y < n
            invariant
                y <= n,
                n == self.cells.len(),
                n <= 4,
                self@.wf(),
                px == position.0,
                py == position.1,
                px + n <= i32::MAX,
                py + n <= i32::MAX,
                as_cells(cells@) == self@.cells_upto(y as int, px, py),
            decreases n - y,
        {
            let ghost before = as_cells(cells@);
            let ghost row = self@.cells[y as int];
            let mut x: usize = 0;
            assert(before + TetroView::row_cells(row, 0, px, py + y) =~= before);
            while x < n
                invariant
                    x <= n,
                    y < n,
                    n == self.cells.len(),
                    n <= 4,
                    self@.wf(),
                    row == self@.cells[y as int],
                    px == position.0,
                    py == position.1,
                    px + n <= i32::MAX,
                    py + n <= i32::MAX,
                    as_cells(cells@) == before + TetroView::row_cells(row, x as int, px, py + y),
                decreases n - x,
            {
                let new_x: i32 = x as i32 + position.0;
                let new_y: i32 = y as i32 + position.1;
                if self.cells[y][x] {
                    let ghost prior = cells@;
                    cells.push((new_x, new_y));
                    assert(as_cells(cells@) =~= as_cells(prior).push((px + x, py + y)));
                    assert(before + TetroView::row_cells(row, x as int, px, py + y).push(
                        (px + x, py + y),
                    ) =~= (before + TetroView::row_cells(row, x as int, px, py + y)).push(
                        (px + x, py + y),
                    ));
                }
                x += 1;
            }
            y += 1;
        }
        cells
    }

    /// Turns the piece a quarter turn clockwise about its origin. The matrix
    /// keeps its size. Whether the turned piece still fits the board is not
    /// looked at.
    pub fn rotate(&mut self)
        requires
            old(self)@.wf(),
        ensures
            final(self)@ == old(self)@.rotated(),
            final(self)@.wf(),
    {
        let n = self.cells.len();
        let ghost before = self@;
        let mut new_shape: Vec<Vec<bool>> = blank_matrix(n);
        let mut y: usize = 0;
        while y < n
            invariant
                y <= n,
                n == self.cells.len(),
                n == before.dim(),
                self@ == before,
                before.wf(),
                new_shape.len() == n,
                forall|r: int| 0 <= r < n ==> (#[trigger] new_shape@[r])@.len() == n,
                forall|r: int, c: int|
                    0 <= r < n && 0 <= c < n ==> #[trigger] new_shape@[r]@[c] == (n - 1 - c < y
                        && before.cells[n - 1 - c][r]),
            decreases n - y,
        {
            let mut x: usize = 0;
            while x < n
                invariant
                    x <= n,
                    y < n,
                    n == self.cells.len(),
                    n == before.dim(),
                    self@ == before,
                    before.wf(),
                    new_shape.len() == n,
                    forall|r: int| 0 <= r < n ==> (#[trigger] new_shape@[r])@.len() == n,
                    forall|r: int, c: int|
                        0 <= r < n && 0 <= c < n ==> #[trigger] new_shape@[r]@[c] == ((n - 1 - c < y
                            || (n - 1 - c == y && r < x)) && before.cells[n - 1 - c][r]),
                decreases n - x,
            {
                assert(self@.cells[y as int].len() == n);
                if self.cells[y][x] {
                    let new_x = (self.origin.0 + self.origin.1 - 2 * y) / 2;
                    let new_y = (self.origin.1 + 2 * x - self.origin.0) / 2;
                    assert(new_x == n - 1 - y && new_y == x);
                    new_shape[new_y][new_x] = true;
                }
                x += 1;
            }
            y += 1;
        }
        self.cells = new_shape;
        proof {
            lemma_rotated_is_quarter_turn(before);
            assert(self@.cells =~~= before.rotated().cells);
        }
    }
}

/// The number of filled cells in a row.
fn count_row(row: &Vec<bool>) -> (count: usize)
    ensures
        count == count_filled(row@),
        count <= row.len(),
{
    let mut count: usize = 0;
    let mut x: usize = 0;
    while x < row.len()
        invariant
            x <= row.len(),
            count <= x,
            count == count_filled(row@.take(x as int)),
        decreases row.len() - x,
    {
        proof {
            assert(row@.take(x + 1) =~= row@.take(x as int).push(row@[x as int]));
            row@.take(x as int).lemma_filter_push(row@[x as int], |b: bool| b);
        }
        if row[x] {
            count += 1;
        }
        x += 1;
    }
    proof {
        assert(row@.take(row.len() as int) =~= row@);
    }
    count
}

/// Whether a row is filled from end to end.
fn row_is_full(row: &Vec<bool>) -> (full: bool)
    ensures
        full == all_filled()(row@),
{
    let mut x: usize = 0;
    while x < row.len()
        invariant
            x <= row.len(),
            forall|j: int| 0 <= j < x ==> row@[j],
        decreases row.len() - x,
    {
        if !row[x] {
            return false;
        }
        x += 1;
    }
    true
}

/// A square matrix of side `n` with no cell filled.
fn blank_matrix(n: usize) -> (matrix: Vec<Vec<bool>>)
    ensures
        matrix.len() == n,
        forall|r: int| 0 <= r < n ==> (#[trigger] matrix@[r])@.len() == n,
        forall|r: int, c: int| 0 <= r < n && 0 <= c < n ==> !(#[trigger] matrix@[r]@[c]),
{
    let mut matrix: Vec<Vec<bool>> = Vec::new();
    let mut y: usize = 0;
    while y < n
        invariant
            y <= n,
            matrix.len() == y,
            forall|r: int| 0 <= r < y ==> (#[trigger] matrix@[r])@.len() == n,
            forall|r: int, c: int| 0 <= r < y && 0 <= c < n ==> !(#[trigger] matrix@[r]@[c]),
        decreases n - y,
    {
        let mut row: Vec<bool> = Vec::new();
        let mut x: usize = 0;
        while x < n
            invariant
                x <= n,
                row.len() == x,
                forall|c: int| 0 <= c < x ==> !(#[trigger] row@[c]),
            decreases n - x,
        {
            row.push(false);
            x += 1;
        }
        matrix.push(row);
        y += 1;
    }
    matrix
}

/// A fresh piece of any kind is well formed.
pub proof fn lemma_fresh_is_wf(kind: TetroKind)
    ensures
        TetroView::of(kind).wf(),
{
    let fresh = TetroView::of(kind);
    assert(fresh.occupied(1, 1));
}

/// The filled cells among the first `k` of a row are the board cells of
/// that board row whose place in the row is below `k` and filled.
pub proof fn lemma_row_cells(row: Seq<bool>, k: int, px: int, y: int)
    requires
        k <= row.len(),
    ensures
        forall|c: (int, int)|
            TetroView::row_cells(row, k, px, y).contains(c) <==> (c.1 == y && 0 <= c.0 - px < k
                && row[c.0 - px]),
    decreases k,
{
    let cells = TetroView::row_cells(row, k, px, y);
    if k > 0 {
        let rest = TetroView::row_cells(row, k - 1, px, y);
        lemma_row_cells(row, k - 1, px, y);
        assert forall|c: (int, int)| cells.contains(c) <==> (c.1 == y && 0 <= c.0 - px < k
            && row[c.0 - px]) by {
            let last = (px + k - 1, y);
            let in_rest = rest.contains(c);
            if row[k - 1] {
                assert(cells == rest.push(last));
                if cells.contains(c) {
                    let i = choose|i: int| 0 <= i < cells.len() && cells[i] == c;
                    if i < rest.len() {
                        assert(rest[i] == c);
                    } else {
                        assert(c == last);
                    }
                }
                if c.1 == y && 0 <= c.0 - px < k && row[c.0 - px] {
                    if c.0 - px == k - 1 {
                        assert(c == last);
                        assert(cells[rest.len() as int] == c);
                    } else {
                        assert(in_rest);
                        let i = choose|i: int| 0 <= i < rest.len() && rest[i] == c;
                        assert(cells[i] == c);
                    }
                }
            } else {
                assert(cells == rest);
            }
        }
    }
}

/// The filled cells of the first `k` rows of a piece are the board cells
/// that a filled cell of those rows lies on.
pub proof fn lemma_cells_upto(piece: TetroView, k: int, px: int, py: int)
    requires
        k <= piece.cells.len(),
    ensures
        forall|c: (int, int)|
            piece.cells_upto(k, px, py).contains(c) <==> (c.1 - py < k && piece.occupied(
                c.0 - px,
                c.1 - py,
            )),
    decreases k,
{
    let cells = piece.cells_upto(k, px, py);
    if k > 0 {
        let row = piece.cells[k - 1];
        let above = piece.cells_upto(k - 1, px, py);
        let here = TetroView::row_cells(row, row.len() as int, px, py + k - 1);
        lemma_cells_upto(piece, k - 1, px, py);
        lemma_row_cells(row, row.len() as int, px, py + k - 1);
        assert forall|c: (int, int)| cells.contains(c) <==> (c.1 - py < k && piece.occupied(
            c.0 - px,
            c.1 - py,
        )) by {
            let in_above = above.contains(c);
            let in_here = here.contains(c);
            assert(cells == above + here);
            if cells.contains(c) {
                let i = choose|i: int| 0 <= i < cells.len() && cells[i] == c;
                if i < above.len() {
                    assert(above[i] == c);
                    assert(in_above);
                } else {
                    assert(here[i - above.len()] == c);
                    assert(in_here);
                }
            }
            if c.1 - py < k && piece.occupied(c.0 - px, c.1 - py) {
                if c.1 - py == k - 1 {
                    assert(in_here);
                    let i = choose|i: int| 0 <= i < here.len() && here[i] == c;
                    assert(cells[above.len() + i] == c);
                } else {
                    assert(in_above);
                    let i = choose|i: int| 0 <= i < above.len() && above[i] == c;
                    assert(cells[i] == c);
                }
            }
        }
    }
}

/// A piece laid on the board fills the board cells that its filled cells
/// lie on, and no others.
pub proof fn lemma_cells_at(piece: TetroView, px: int, py: int)
    ensures
        forall|c: (int, int)|
            piece.cells_at(px, py).contains(c) <==> piece.occupied(c.0 - px, c.1 - py),
{
    lemma_cells_upto(piece, piece.cells.len() as int, px, py);
}

/// A quarter turn of a well-formed piece turns its matrix about the centre:
/// what was in column `r` of row `dim - 1 - c` comes to column `c` of row `r`.
/// The piece stays well formed.
pub proof fn lemma_rotated_is_quarter_turn(piece: TetroView)
    requires
        piece.wf(),
    ensures
        piece.rotated().wf(),
        piece.rotated().kind == piece.kind,
        piece.rotated().dim() == piece.dim(),
        forall|c: int, r: int|
            0 <= c < piece.dim() && 0 <= r < piece.dim() ==> #[trigger] piece.rotated().cells[r][c]
                == piece.cells[piece.dim() - 1 - c][r],
{
    reveal(TetroView::rotated);
    let n = piece.dim();
    let turned = piece.rotated();
    assert forall|x: int, y: int| piece.image(x, y) == (n - 1 - y, x) by {}
    assert forall|c: int, r: int| 0 <= c < n && 0 <= r < n implies #[trigger] turned.cells[r][c]
        == piece.cells[n - 1 - c][r] by {
        if piece.cells[n - 1 - c][r] {
            assert(piece.occupied(r, n - 1 - c) && piece.image(r, n - 1 - c) == (c, r));
        }
    }
    let (x0, y0) = choose|x: int, y: int| piece.occupied(x, y);
    assert(turned.cells[x0][n - 1 - y0]);
    assert(turned.occupied(n - 1 - y0, x0));
}

} // verus!
