use tetris::board::{Board, GameStatus, Key, MoveOutcome};
use tetris::grid::{Cell, BOARD_HEIGHT, BOARD_WIDTH};
use tetris::tetro::{Color, Tetro, TetroKind};

/// The filled cells of the grid as `(column, row, colour)`, row by row.
fn filled(board: &Board) -> Vec<(usize, usize, Color)> {
    let mut cells = Vec::new();
    for (y, row) in board.grid().iter().enumerate() {
        for (x, cell) in row.iter().enumerate() {
            if let Cell::Filled(color) = cell {
                cells.push((x, y, *color));
            }
        }
    }
    cells
}

/// Moves the piece sideways to column `x`, every move of which must be valid.
fn slide_to(board: &mut Board, x: i32) {
    while board.position().0 < x {
        assert_eq!(board.move_current_with((1, 0), TetroKind::O), MoveOutcome::Valid);
    }
    while board.position().0 > x {
        assert_eq!(board.move_current_with((-1, 0), TetroKind::O), MoveOutcome::Valid);
    }
}

/// Moves the piece down until it locks; `next` is the kind that follows.
/// Returns the number of valid moves made.
fn drop_piece(board: &mut Board, next: TetroKind) -> usize {
    let mut moves = 0;
    loop {
        match board.move_current_with((0, 1), next) {
            MoveOutcome::Valid => moves += 1,
            MoveOutcome::Lock => return moves,
            MoveOutcome::Prevent => panic!("a move down was prevented"),
        }
        assert!(moves <= BOARD_HEIGHT);
    }
}

/// Turns the piece, slides it to column `x` and drops it.
fn place(board: &mut Board, turns: usize, x: i32, next: TetroKind) {
    for _ in 0..turns {
        board.keydown(Key::Space);
    }
    slide_to(board, x);
    drop_piece(board, next);
}

/// A board whose falling piece is fresh and of the given kind, with an `O`
/// locked at the bottom of columns 4 and 5.
fn board_with(kind: TetroKind) -> Board {
    let mut board = Board::new();
    drop_piece(&mut board, kind);
    board
}

#[test]
fn new_board_is_empty_and_running() {
    let board = Board::new();
    assert_eq!(board.status(), GameStatus::Running);
    assert_eq!(board.grid().len(), 20);
    for row in board.grid() {
        assert_eq!(*row, vec![Cell::Empty; 10]);
    }
    assert_eq!(board.current_tetro().kind(), TetroKind::O);
    assert_eq!(board.current_tetro().cells(), Tetro::new(TetroKind::O).cells());
    assert_eq!(board.position(), (4, 0));
    assert!(board.piece_in_board());
}

#[test]
fn board_is_ten_by_twenty() {
    assert_eq!(BOARD_WIDTH, 10);
    assert_eq!(BOARD_HEIGHT, 20);
}

#[test]
fn free_move_is_valid_and_moves_by_delta() {
    let mut board = Board::new();
    assert_eq!(board.move_current_with((0, 1), TetroKind::I), MoveOutcome::Valid);
    assert_eq!(board.position(), (4, 1));
    assert_eq!(board.move_current_with((-1, 0), TetroKind::I), MoveOutcome::Valid);
    assert_eq!(board.position(), (3, 1));
    assert_eq!(board.move_current_with((1, 0), TetroKind::I), MoveOutcome::Valid);
    assert_eq!(board.position(), (4, 1));
    assert_eq!(board.move_current_with((3, 5), TetroKind::I), MoveOutcome::Valid);
    assert_eq!(board.position(), (7, 6));
    assert_eq!(board.move_current_with((-7, 12), TetroKind::I), MoveOutcome::Valid);
    assert_eq!(board.position(), (0, 18));
    assert!(filled(&board).is_empty());
    assert_eq!(board.current_tetro().kind(), TetroKind::O);
    assert_eq!(board.status(), GameStatus::Running);
}

#[test]
fn free_move_is_valid_for_every_kind() {
    for kind in [
        TetroKind::I,
        TetroKind::O,
        TetroKind::T,
        TetroKind::J,
        TetroKind::L,
        TetroKind::S,
        TetroKind::Z,
    ] {
        let mut board = board_with(kind);
        assert_eq!(board.current_tetro().kind(), kind);
        assert_eq!(board.position(), (4, 0));
        assert_eq!(board.move_current_with((0, 1), TetroKind::O), MoveOutcome::Valid);
        assert_eq!(board.position(), (4, 1));
        assert_eq!(board.move_current_with((1, 0), TetroKind::O), MoveOutcome::Valid);
        assert_eq!(board.position(), (5, 1));
        assert_eq!(board.move_current_with((-2, 0), TetroKind::O), MoveOutcome::Valid);
        assert_eq!(board.position(), (3, 1));
    }
}

#[test]
fn left_wall_prevents() {
    let mut board = Board::new();
    for x in [3, 2, 1, 0] {
        assert_eq!(board.move_current_with((-1, 0), TetroKind::I), MoveOutcome::Valid);
        assert_eq!(board.position(), (x, 0));
    }
    assert_eq!(board.move_current_with((-1, 0), TetroKind::I), MoveOutcome::Prevent);
    assert_eq!(board.position(), (0, 0));
    assert!(filled(&board).is_empty());
    assert_eq!(board.current_tetro().kind(), TetroKind::O);
}

#[test]
fn right_wall_prevents() {
    let mut board = Board::new();
    for x in [5, 6, 7, 8] {
        assert_eq!(board.move_current_with((1, 0), TetroKind::I), MoveOutcome::Valid);
        assert_eq!(board.position(), (x, 0));
    }
    assert_eq!(board.move_current_with((1, 0), TetroKind::I), MoveOutcome::Prevent);
    assert_eq!(board.position(), (8, 0));
    assert!(filled(&board).is_empty());
}

#[test]
fn walls_prevent_every_kind() {
    let reach = [
        (TetroKind::I, 0, 6),
        (TetroKind::O, 0, 8),
        (TetroKind::T, 0, 7),
        (TetroKind::J, 0, 8),
        (TetroKind::L, -1, 7),
        (TetroKind::S, 0, 7),
        (TetroKind::Z, 0, 7),
    ];
    for (kind, leftmost, rightmost) in reach {
        let mut board = board_with(kind);
        slide_to(&mut board, leftmost);
        assert_eq!(board.move_current_with((-1, 0), TetroKind::O), MoveOutcome::Prevent);
        assert_eq!(board.position(), (leftmost, 0));
        slide_to(&mut board, rightmost);
        assert_eq!(board.move_current_with((1, 0), TetroKind::O), MoveOutcome::Prevent);
        assert_eq!(board.position(), (rightmost, 0));
    }
}

#[test]
fn a_turned_piece_may_hang_over_the_edge_with_empty_columns() {
    let mut board = board_with(TetroKind::I);
    board.keydown(Key::Space);
    slide_to(&mut board, -2);
    assert_eq!(board.position(), (-2, 0));
    assert!(board.piece_in_board());
    assert_eq!(board.move_current_with((-1, 0), TetroKind::O), MoveOutcome::Prevent);
    assert_eq!(board.position(), (-2, 0));
    slide_to(&mut board, 7);
    assert_eq!(board.move_current_with((1, 0), TetroKind::O), MoveOutcome::Prevent);
    assert_eq!(board.position(), (7, 0));
}

#[test]
fn floor_locks_the_piece_where_it_was() {
    let mut board = Board::new();
    for y in 1..=18 {
        assert_eq!(board.move_current_with((0, 1), TetroKind::T), MoveOutcome::Valid);
        assert_eq!(board.position(), (4, y));
    }
    assert!(filled(&board).is_empty());
    assert_eq!(board.move_current_with((0, 1), TetroKind::T), MoveOutcome::Lock);
    assert_eq!(
        filled(&board),
        vec![
            (4, 18, Color::Yellow),
            (5, 18, Color::Yellow),
            (4, 19, Color::Yellow),
            (5, 19, Color::Yellow),
        ]
    );
    assert_eq!(board.position(), (4, 0));
    assert_eq!(board.current_tetro().kind(), TetroKind::T);
    assert_eq!(board.current_tetro().cells(), Tetro::new(TetroKind::T).cells());
    assert_eq!(board.status(), GameStatus::Running);
}

#[test]
fn floor_locks_the_bar_in_its_own_colour() {
    let mut board = board_with(TetroKind::I);
    slide_to(&mut board, 0);
    assert_eq!(drop_piece(&mut board, TetroKind::Z), 18);
    assert_eq!(
        filled(&board),
        vec![
            (4, 18, Color::Yellow),
            (5, 18, Color::Yellow),
            (0, 19, Color::Blue),
            (1, 19, Color::Blue),
            (2, 19, Color::Blue),
            (3, 19, Color::Blue),
            (4, 19, Color::Yellow),
            (5, 19, Color::Yellow),
        ]
    );
    assert_eq!(board.position(), (4, 0));
    assert_eq!(board.current_tetro().kind(), TetroKind::Z);
}

#[test]
fn settled_cell_below_locks() {
    let mut board = board_with(TetroKind::O);
    for y in 1..=16 {
        assert_eq!(board.move_current_with((0, 1), TetroKind::L), MoveOutcome::Valid);
        assert_eq!(board.position(), (4, y));
    }
    assert_eq!(board.move_current_with((0, 1), TetroKind::L), MoveOutcome::Lock);
    assert_eq!(
        filled(&board),
        vec![
            (4, 16, Color::Yellow),
            (5, 16, Color::Yellow),
            (4, 17, Color::Yellow),
            (5, 17, Color::Yellow),
            (4, 18, Color::Yellow),
            (5, 18, Color::Yellow),
            (4, 19, Color::Yellow),
            (5, 19, Color::Yellow),
        ]
    );
    assert_eq!(board.position(), (4, 0));
    assert_eq!(board.current_tetro().kind(), TetroKind::L);
}

#[test]
fn settled_cell_beside_prevents() {
    let mut board = board_with(TetroKind::O);
    slide_to(&mut board, 2);
    for _ in 0..18 {
        assert_eq!(board.move_current_with((0, 1), TetroKind::L), MoveOutcome::Valid);
    }
    assert_eq!(board.position(), (2, 18));
    let before = filled(&board);
    assert_eq!(board.move_current_with((1, 0), TetroKind::L), MoveOutcome::Prevent);
    assert_eq!(board.position(), (2, 18));
    assert_eq!(filled(&board), before);
    assert_eq!(board.current_tetro().kind(), TetroKind::O);
}

#[test]
fn a_move_aslant_counts_as_sideways() {
    let mut board = board_with(TetroKind::O);
    for _ in 0..16 {
        assert_eq!(board.move_current_with((0, 1), TetroKind::L), MoveOutcome::Valid);
    }
    slide_to(&mut board, 2);
    assert_eq!(board.position(), (2, 16));
    assert_eq!(board.move_current_with((1, 1), TetroKind::L), MoveOutcome::Prevent);
    assert_eq!(board.position(), (2, 16));
    assert_eq!(board.move_current_with((-1, 1), TetroKind::L), MoveOutcome::Valid);
    assert_eq!(board.position(), (1, 17));
}

#[test]
fn one_full_row_is_cleared() {
    let mut board = board_with(TetroKind::I);
    // The first `O` lies at the bottom of columns 4 and 5.
    place(&mut board, 0, 0, TetroKind::I);
    place(&mut board, 0, 6, TetroKind::O);
    // The bottom row is full and gone; what lay above it came down.
    assert_eq!(
        filled(&board),
        vec![(4, 19, Color::Yellow), (5, 19, Color::Yellow)]
    );
    assert_eq!(board.grid().len(), 20);
    assert_eq!(board.grid()[0], vec![Cell::Empty; 10]);
    for row in board.grid() {
        assert_eq!(row.len(), 10);
    }
    assert_eq!(board.status(), GameStatus::Running);
    assert_eq!(board.position(), (4, 0));
}

#[test]
fn rows_above_a_cleared_row_come_down_in_order() {
    let mut board = board_with(TetroKind::I);
    place(&mut board, 0, 0, TetroKind::T);
    // The `T` comes to rest with its foot on the `O`.
    place(&mut board, 0, 3, TetroKind::I);
    assert_eq!(
        filled(&board),
        vec![
            (3, 16, Color::Purple),
            (4, 16, Color::Purple),
            (5, 16, Color::Purple),
            (4, 17, Color::Purple),
            (4, 18, Color::Yellow),
            (5, 18, Color::Yellow),
            (0, 19, Color::Blue),
            (1, 19, Color::Blue),
            (2, 19, Color::Blue),
            (3, 19, Color::Blue),
            (4, 19, Color::Yellow),
            (5, 19, Color::Yellow),
        ]
    );
    // A bar closes the bottom row; all above it comes down by one row.
    place(&mut board, 0, 6, TetroKind::O);
    assert_eq!(
        filled(&board),
        vec![
            (3, 17, Color::Purple),
            (4, 17, Color::Purple),
            (5, 17, Color::Purple),
            (4, 18, Color::Purple),
            (4, 19, Color::Yellow),
            (5, 19, Color::Yellow),
        ]
    );
    assert_eq!(board.grid().len(), 20);
    assert_eq!(board.grid()[0], vec![Cell::Empty; 10]);
}

#[test]
fn two_full_rows_are_cleared_together() {
    let mut board = Board::new();
    for x in [0, 2, 6, 8] {
        place(&mut board, 0, x, TetroKind::O);
        assert_eq!(filled(&board).len() % 4, 0);
    }
    assert_eq!(filled(&board).len(), 16);
    // The fifth `O` closes rows 18 and 19 at once.
    place(&mut board, 0, 4, TetroKind::S);
    assert!(filled(&board).is_empty());
    assert_eq!(board.grid().len(), 20);
    for row in board.grid() {
        assert_eq!(*row, vec![Cell::Empty; 10]);
    }
    assert_eq!(board.status(), GameStatus::Running);
    assert_eq!(board.current_tetro().kind(), TetroKind::S);
    assert_eq!(board.position(), (4, 0));
}

#[test]
fn full_rows_apart_are_cleared_together() {
    let mut board = Board::new();
    // Two `O`s and a bar make the bottom row, but for columns 8 and 9.
    place(&mut board, 0, 0, TetroKind::O);
    place(&mut board, 0, 2, TetroKind::I);
    place(&mut board, 0, 4, TetroKind::I);
    // A bar on the `O`s, a bar upright in column 4, and a `T` with its foot
    // in column 6 make row 17 and leave two gaps in row 18.
    place(&mut board, 0, 0, TetroKind::I);
    place(&mut board, 1, 2, TetroKind::T);
    place(&mut board, 0, 5, TetroKind::I);
    // Bars upright in columns 8 and 9 close rows 17 and 19.
    place(&mut board, 1, 6, TetroKind::I);
    assert_eq!(filled(&board).len(), 28);
    let blue = Cell::Filled(Color::Blue);
    let purple = Cell::Filled(Color::Purple);
    assert_eq!(
        board.grid()[17],
        vec![blue, blue, blue, blue, blue, purple, purple, purple, blue, Cell::Empty]
    );
    assert_eq!(board.grid()[17][9], Cell::Empty);
    assert_eq!(board.grid()[18][5], Cell::Empty);
    assert_eq!(board.grid()[18][7], Cell::Empty);
    place(&mut board, 1, 7, TetroKind::Z);
    assert_eq!(
        filled(&board),
        vec![
            (4, 17, Color::Blue),
            (4, 18, Color::Blue),
            (8, 18, Color::Blue),
            (9, 18, Color::Blue),
            (0, 19, Color::Yellow),
            (1, 19, Color::Yellow),
            (2, 19, Color::Yellow),
            (3, 19, Color::Yellow),
            (4, 19, Color::Blue),
            (6, 19, Color::Purple),
            (8, 19, Color::Blue),
            (9, 19, Color::Blue),
        ]
    );
    assert_eq!(board.grid().len(), 20);
    assert_eq!(board.grid()[0], vec![Cell::Empty; 10]);
    assert_eq!(board.grid()[1], vec![Cell::Empty; 10]);
    assert_eq!(board.status(), GameStatus::Running);
    assert_eq!(board.current_tetro().kind(), TetroKind::Z);
}

#[test]
fn piece_locked_in_the_top_row_ends_the_game() {
    let mut board = Board::new();
    for n in 0..9 {
        assert_eq!(board.status(), GameStatus::Running);
        assert_eq!(drop_piece(&mut board, TetroKind::O), 18 - 2 * n);
    }
    assert_eq!(board.status(), GameStatus::Running);
    assert_eq!(board.position(), (4, 0));
    // Rows 2 to 19 of columns 4 and 5 are filled; the tenth `O` cannot move.
    assert_eq!(board.move_current_with((0, 1), TetroKind::I), MoveOutcome::Lock);
    assert_eq!(board.status(), GameStatus::Over);
    assert_eq!(filled(&board).len(), 40);
    assert_eq!(board.grid()[0][4], Cell::Filled(Color::Yellow));
    assert_eq!(board.grid()[0][5], Cell::Filled(Color::Yellow));
    assert_eq!(board.current_tetro().kind(), TetroKind::I);
    assert_eq!(board.position(), (4, 0));
}

#[test]
fn a_lock_in_the_top_row_that_fills_a_row_lets_the_game_go_on() {
    let mut board = Board::new();
    drop_piece(&mut board, TetroKind::I);
    slide_to(&mut board, 0);
    assert_eq!(drop_piece(&mut board, TetroKind::I), 18);
    // A move far down locks a piece where it is: two bars in row 1.
    assert_eq!(board.move_current_with((0, 30), TetroKind::I), MoveOutcome::Lock);
    assert_eq!(board.move_current_with((-4, 0), TetroKind::I), MoveOutcome::Valid);
    assert_eq!(board.move_current_with((0, 30), TetroKind::O), MoveOutcome::Lock);
    assert_eq!(board.status(), GameStatus::Running);
    assert_eq!(filled(&board).len(), 16);
    // The `O` beside them fills rows 0 and 1 of columns 8 and 9.
    assert_eq!(board.move_current_with((4, 0), TetroKind::T), MoveOutcome::Valid);
    assert_eq!(board.position(), (8, 0));
    assert_eq!(board.move_current_with((0, 30), TetroKind::T), MoveOutcome::Lock);
    // Row 1 was full and is gone, and what was in row 0 has come down.
    assert_eq!(board.status(), GameStatus::Running);
    assert_eq!(
        filled(&board),
        vec![
            (8, 1, Color::Yellow),
            (9, 1, Color::Yellow),
            (4, 18, Color::Yellow),
            (5, 18, Color::Yellow),
            (0, 19, Color::Blue),
            (1, 19, Color::Blue),
            (2, 19, Color::Blue),
            (3, 19, Color::Blue),
            (4, 19, Color::Yellow),
            (5, 19, Color::Yellow),
        ]
    );
    assert_eq!(board.grid()[0], vec![Cell::Empty; 10]);
    assert_eq!(board.current_tetro().kind(), TetroKind::T);
    assert_eq!(board.position(), (4, 0));
}

#[test]
fn nothing_changes_once_the_game_is_over() {
    let mut board = Board::new();
    for _ in 0..10 {
        drop_piece(&mut board, TetroKind::T);
    }
    assert_eq!(board.status(), GameStatus::Over);
    let grid = board.grid().clone();
    let cells = board.current_tetro().cells().clone();
    for key in [Key::Left, Key::Right, Key::Down, Key::Space, Key::Other] {
        assert!(board.can_press(key));
        board.keydown(key);
        assert_eq!(board.status(), GameStatus::Over);
        assert_eq!(*board.grid(), grid);
        assert_eq!(*board.current_tetro().cells(), cells);
        assert_eq!(board.current_tetro().kind(), TetroKind::T);
        assert_eq!(board.position(), (4, 0));
    }
    for _ in 0..3 {
        board.update();
        assert_eq!(board.status(), GameStatus::Over);
        assert_eq!(*board.grid(), grid);
        assert_eq!(*board.current_tetro().cells(), cells);
        assert_eq!(board.position(), (4, 0));
    }
}

#[test]
fn keys_move_the_piece() {
    let mut board = Board::new();
    board.keydown(Key::Left);
    assert_eq!(board.position(), (3, 0));
    board.keydown(Key::Down);
    assert_eq!(board.position(), (3, 1));
    board.keydown(Key::Right);
    board.keydown(Key::Right);
    assert_eq!(board.position(), (5, 1));
    board.keydown(Key::Other);
    assert_eq!(board.position(), (5, 1));
    assert!(filled(&board).is_empty());
    assert_eq!(board.status(), GameStatus::Running);
    assert_eq!(board.current_tetro().kind(), TetroKind::O);
}

#[test]
fn space_turns_the_piece_and_leaves_it_in_place() {
    let mut board = board_with(TetroKind::T);
    board.keydown(Key::Down);
    board.keydown(Key::Space);
    let mut turned = Tetro::new(TetroKind::T);
    turned.rotate();
    assert_eq!(board.current_tetro().cells(), turned.cells());
    assert_eq!(board.current_tetro().kind(), TetroKind::T);
    assert_eq!(board.position(), (4, 1));
    assert_eq!(filled(&board).len(), 4);
}

#[test]
fn space_turns_the_piece_even_off_the_board() {
    let mut board = board_with(TetroKind::I);
    // Upright in column 9: the corner of the matrix is at column 7.
    board.keydown(Key::Space);
    slide_to(&mut board, 7);
    assert!(board.piece_in_board());
    // Flat again, the bar would reach from column 7 to column 10.
    board.keydown(Key::Space);
    assert_eq!(board.position(), (7, 0));
    assert_eq!(
        board.current_tetro().get_cells_in_board(board.position()),
        vec![(7, 2), (8, 2), (9, 2), (10, 2)]
    );
    assert!(!board.piece_in_board());
    // A column off the board prevents every move but the one back.
    assert!(board.can_move((0, 1)));
    assert_eq!(board.move_current_with((0, 1), TetroKind::O), MoveOutcome::Prevent);
    assert_eq!(board.move_current_with((1, 0), TetroKind::O), MoveOutcome::Prevent);
    assert_eq!(board.position(), (7, 0));
    assert_eq!(board.move_current_with((-1, 0), TetroKind::O), MoveOutcome::Valid);
    assert_eq!(board.position(), (6, 0));
    assert!(board.piece_in_board());
}

#[test]
fn a_piece_turned_through_the_floor_cannot_be_moved() {
    let mut board = board_with(TetroKind::I);
    slide_to(&mut board, 0);
    for _ in 0..18 {
        assert_eq!(board.move_current_with((0, 1), TetroKind::O), MoveOutcome::Valid);
    }
    assert_eq!(board.position(), (0, 18));
    assert!(board.can_move((0, 1)));
    board.keydown(Key::Space);
    assert_eq!(
        board.current_tetro().get_cells_in_board(board.position()),
        vec![(2, 18), (2, 19), (2, 20), (2, 21)]
    );
    assert!(!board.piece_in_board());
    assert!(!board.can_move((0, 1)));
    assert!(!board.can_move((1, 0)));
    assert!(!board.can_move((-1, 0)));
    assert!(!board.can_press(Key::Down));
    assert!(!board.can_press(Key::Left));
    assert!(!board.can_press(Key::Right));
    assert!(board.can_press(Key::Space));
    assert!(board.can_press(Key::Other));
    // Moved up it is on the board again.
    assert!(board.can_move((0, -2)));
    assert_eq!(board.move_current_with((0, -2), TetroKind::O), MoveOutcome::Valid);
    assert!(board.piece_in_board());
    assert!(board.can_move((0, 1)));
}

#[test]
fn update_moves_the_piece_down() {
    let mut board = Board::new();
    board.update();
    assert_eq!(board.position(), (4, 1));
    board.update();
    assert_eq!(board.position(), (4, 2));
    assert!(filled(&board).is_empty());
    assert_eq!(board.status(), GameStatus::Running);
    assert_eq!(board.current_tetro().kind(), TetroKind::O);
}

#[test]
fn update_locks_at_the_floor_and_brings_a_new_piece() {
    let mut board = Board::new();
    for _ in 0..18 {
        board.update();
    }
    assert_eq!(board.position(), (4, 18));
    assert!(filled(&board).is_empty());
    board.update();
    assert_eq!(
        filled(&board),
        vec![
            (4, 18, Color::Yellow),
            (5, 18, Color::Yellow),
            (4, 19, Color::Yellow),
            (5, 19, Color::Yellow),
        ]
    );
    assert_eq!(board.position(), (4, 0));
    assert_eq!(board.status(), GameStatus::Running);
    let kind = board.current_tetro().kind();
    assert_eq!(board.current_tetro().cells(), Tetro::new(kind).cells());
    assert_eq!(board.current_tetro().color(), Tetro::new(kind).color());
}

#[test]
fn update_does_what_the_down_key_does() {
    let mut ticked = board_with(TetroKind::S);
    let mut keyed = board_with(TetroKind::S);
    for _ in 0..15 {
        ticked.update();
        keyed.keydown(Key::Down);
        assert_eq!(ticked.position(), keyed.position());
        assert_eq!(ticked.grid(), keyed.grid());
        assert_eq!(ticked.status(), keyed.status());
    }
    assert_eq!(ticked.position(), (4, 15));
}

#[test]
fn drawn_pieces_are_not_all_of_one_kind() {
    let mut kinds = Vec::new();
    for _ in 0..8 {
        let mut board = Board::new();
        let mut ticks = 0;
        while board.status() == GameStatus::Running && ticks < 1000 {
            let at_rest = filled(&board).len();
            board.update();
            if filled(&board).len() != at_rest {
                let kind = board.current_tetro().kind();
                assert_eq!(board.position(), (4, 0));
                assert_eq!(board.current_tetro().cells(), Tetro::new(kind).cells());
                kinds.push(kind);
            }
            ticks += 1;
        }
        assert_eq!(board.status(), GameStatus::Over);
    }
    assert!(kinds.len() >= 8);
    assert!(kinds.iter().any(|kind| *kind != kinds[0]));
    assert!(kinds.iter().any(|kind| *kind != TetroKind::I));
}

#[test]
fn valid_move_on_a_fresh_board() {
    let board = Board::new();
    assert_eq!(board.valid_move(vec![], true), MoveOutcome::Valid);
    assert_eq!(board.valid_move(vec![], false), MoveOutcome::Valid);
    assert_eq!(board.valid_move(vec![(0, 0), (9, 19)], true), MoveOutcome::Valid);
    assert_eq!(board.valid_move(vec![(0, 0), (9, 19)], false), MoveOutcome::Valid);
    assert_eq!(board.valid_move(vec![(-1, 5)], true), MoveOutcome::Prevent);
    assert_eq!(board.valid_move(vec![(-1, 5)], false), MoveOutcome::Prevent);
    assert_eq!(board.valid_move(vec![(10, 5)], false), MoveOutcome::Prevent);
    assert_eq!(board.valid_move(vec![(5, 20)], true), MoveOutcome::Lock);
    assert_eq!(board.valid_move(vec![(5, 20)], false), MoveOutcome::Lock);
    assert_eq!(board.valid_move(vec![(5, -1)], false), MoveOutcome::Lock);
}

#[test]
fn valid_move_goes_by_the_first_cell_that_objects() {
    let board = Board::new();
    assert_eq!(board.valid_move(vec![(3, 3), (0, 20), (-1, 0)], true), MoveOutcome::Lock);
    assert_eq!(board.valid_move(vec![(3, 3), (-1, 0), (0, 20)], true), MoveOutcome::Prevent);
    // For one cell the column is looked at before the row.
    assert_eq!(board.valid_move(vec![(10, 20)], false), MoveOutcome::Prevent);
}

#[test]
fn valid_move_onto_a_settled_cell() {
    let board = board_with(TetroKind::I);
    assert_eq!(board.valid_move(vec![(4, 19)], true), MoveOutcome::Prevent);
    assert_eq!(board.valid_move(vec![(4, 19)], false), MoveOutcome::Lock);
    assert_eq!(board.valid_move(vec![(3, 19), (5, 18)], true), MoveOutcome::Prevent);
    assert_eq!(board.valid_move(vec![(3, 19), (5, 18)], false), MoveOutcome::Lock);
    assert_eq!(board.valid_move(vec![(3, 19), (6, 18)], false), MoveOutcome::Valid);
    // A settled cell before a cell off the board decides.
    assert_eq!(board.valid_move(vec![(4, 18), (-1, 0)], false), MoveOutcome::Lock);
    assert_eq!(board.valid_move(vec![(4, 18), (0, 20)], true), MoveOutcome::Prevent);
}
