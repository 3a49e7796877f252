use tetris_core::board::{Board, Cell};
use tetris_core::geometry::Point;
use tetris_core::piece::{Color, Tetromino};

fn occupied(board: &Board, x: u32, y: u32) -> bool {
    matches!(board.cell(x, y), Cell::Occupied(_))
}

fn grid(board: &Board) -> Vec<Cell> {
    let mut cells = Vec::new();
    for y in 0..board.height {
        for x in 0..board.width {
            cells.push(board.cell(x, y));
        }
    }
    cells
}

fn fill_row(board: &mut Board, y: u32) {
    // Overlapping I pieces cover all ten columns of the row.
    for x in [0i32, 4, 6] {
        let mut t = Tetromino::i();
        t.position = Point { x, y: y as i32 };
        board.lock(&t);
    }
}

#[test]
fn new_board_is_empty() {
    let board = Board::new(10, 20);
    for y in 0..20 {
        for x in 0..10 {
            assert_eq!(board.cell(x, y), Cell::Empty);
        }
    }
}

#[test]
fn collision_against_side_and_bottom_walls() {
    let board = Board::new(10, 20);
    let mut t = Tetromino::o(); // cells in columns 0-1, rows 0-1

    t.position = Point { x: 0, y: 0 };
    assert!(!board.check_collision(&t));

    t.position = Point { x: -1, y: 0 };
    assert!(board.check_collision(&t)); // left of column 0

    t.position = Point { x: 8, y: 0 };
    assert!(!board.check_collision(&t));

    t.position = Point { x: 9, y: 0 };
    assert!(board.check_collision(&t)); // right of the last column

    t.position = Point { x: 4, y: 18 };
    assert!(!board.check_collision(&t));

    t.position = Point { x: 4, y: 19 };
    assert!(board.check_collision(&t)); // below the last row
}

#[test]
fn cells_above_the_top_do_not_collide() {
    let board = Board::new(10, 20);
    let mut t = Tetromino::o();
    t.position = Point { x: 4, y: -1 };
    assert!(!board.check_collision(&t));
    t.position = Point { x: 4, y: -2 };
    assert!(!board.check_collision(&t));
}

#[test]
fn collision_against_occupied_cells() {
    let mut board = Board::new(10, 20);
    board.cells[19 * 10 + 4] = Cell::Occupied(Color { red: 9, green: 9, blue: 9 });
    let mut t = Tetromino::o();

    t.position = Point { x: 4, y: 18 };
    assert!(board.check_collision(&t)); // overlaps (4, 19)

    t.position = Point { x: 5, y: 18 };
    assert!(!board.check_collision(&t)); // sits beside it
}

#[test]
fn occupied_cell_in_top_row_only_hits_on_grid_cells() {
    let mut board = Board::new(10, 20);
    board.cells[4] = Cell::Occupied(Color { red: 9, green: 9, blue: 9 });
    let mut t = Tetromino::i(); // a single row of cells

    t.position = Point { x: 2, y: -1 };
    assert!(!board.check_collision(&t)); // whole piece above the top

    t.position = Point { x: 2, y: 0 };
    assert!(board.check_collision(&t)); // overlaps (4, 0)
}

#[test]
fn lock_writes_the_piece_cells_with_its_colour() {
    let mut board = Board::new(10, 20);
    let mut t = Tetromino::t();
    t.position = Point { x: 3, y: 10 };
    board.lock(&t);
    assert_eq!(board.cell(4, 10), Cell::Occupied(t.color));
    assert_eq!(board.cell(3, 11), Cell::Occupied(t.color));
    assert_eq!(board.cell(4, 11), Cell::Occupied(t.color));
    assert_eq!(board.cell(5, 11), Cell::Occupied(t.color));
    let occupied_count = grid(&board)
        .iter()
        .filter(|c| matches!(c, Cell::Occupied(_)))
        .count();
    assert_eq!(occupied_count, 4);
}

#[test]
fn lock_discards_cells_above_the_top() {
    let mut board = Board::new(10, 20);
    let mut t = Tetromino::o(); // rows 0-1 relative
    t.position = Point { x: 0, y: -1 };
    board.lock(&t);
    assert!(occupied(&board, 0, 0));
    assert!(occupied(&board, 1, 0));
    let occupied_count = grid(&board)
        .iter()
        .filter(|c| matches!(c, Cell::Occupied(_)))
        .count();
    assert_eq!(occupied_count, 2);
}

#[test]
fn partial_row_is_not_cleared() {
    // An I piece locked at the bottom row spans only four of the ten
    // columns: clear_lines must be a no-op.
    let mut board = Board::new(10, 20);
    let mut t = Tetromino::i();
    t.position = Point { x: 0, y: 19 };
    board.lock(&t);
    let before = grid(&board);
    board.clear_lines();
    assert_eq!(grid(&board), before);
}

#[test]
fn full_bottom_row_clears_to_empty_board() {
    // Row 19 fully occupied, everything above empty: the clear
    // empties row 19 and changes nothing else.
    let mut board = Board::new(10, 20);
    fill_row(&mut board, 19);
    for x in 0..10 {
        assert!(occupied(&board, x, 19));
    }
    board.clear_lines();
    for y in 0..20 {
        for x in 0..10 {
            assert_eq!(board.cell(x, y), Cell::Empty);
        }
    }
}

#[test]
fn cascade_drops_survivor_into_cleared_rows() {
    // Rows 18 and 19 full, one extra cell at (0, 17): both full rows
    // clear and the survivor falls two rows to (0, 19), colour
    // intact.
    let mut board = Board::new(10, 20);
    fill_row(&mut board, 18);
    fill_row(&mut board, 19);
    let marker = Color { red: 7, green: 8, blue: 9 };
    board.cells[17 * 10] = Cell::Occupied(marker);

    board.clear_lines();

    assert_eq!(board.cell(0, 19), Cell::Occupied(marker));
    for y in 0..20 {
        for x in 0..10 {
            if (x, y) != (0, 19) {
                assert_eq!(board.cell(x, y), Cell::Empty);
            }
        }
    }
}

#[test]
fn clear_lines_is_idempotent() {
    // A deliberately ragged board: clearing twice in a row gives the
    // same grid as clearing once.
    let mut board = Board::new(10, 20);
    fill_row(&mut board, 19);
    let marker = Color { red: 1, green: 2, blue: 3 };
    board.cells[17 * 10 + 3] = Cell::Occupied(marker);
    board.cells[15 * 10 + 3] = Cell::Occupied(marker);
    board.cells[16 * 10 + 8] = Cell::Occupied(marker);

    board.clear_lines();
    let after_first = grid(&board);
    board.clear_lines();
    assert_eq!(grid(&board), after_first);
}

#[test]
fn clear_lines_leaves_columns_settled() {
    // After a clear no empty cell sits directly above an occupied
    // one: each column is a contiguous run ending at the bottom.
    let mut board = Board::new(10, 20);
    fill_row(&mut board, 18);
    let marker = Color { red: 4, green: 5, blue: 6 };
    board.cells[15 * 10 + 2] = Cell::Occupied(marker);
    board.cells[13 * 10 + 2] = Cell::Occupied(marker);
    board.cells[16 * 10 + 7] = Cell::Occupied(marker);
    board.cells[19 * 10 + 5] = Cell::Occupied(marker);

    board.clear_lines();

    for x in 0..10 {
        for y in 0..19 {
            if occupied(&board, x, y) {
                assert!(
                    occupied(&board, x, y + 1),
                    "gap below occupied cell at ({}, {})",
                    x,
                    y
                );
            }
        }
    }
}

#[test]
fn cascade_can_fill_and_clear_a_new_row() {
    // Two columns, two rows: an occupied cell at (0, 0) and one at
    // (1, 1).  No row is full, but the cascade drops (0, 0) to
    // (0, 1), completing the bottom row, which must then clear.
    let mut board = Board::new(2, 2);
    let marker = Color { red: 1, green: 1, blue: 1 };
    board.cells[0] = Cell::Occupied(marker);
    board.cells[3] = Cell::Occupied(marker);
    board.clear_lines();
    for y in 0..2 {
        for x in 0..2 {
            assert_eq!(board.cell(x, y), Cell::Empty);
        }
    }
}

#[test]
fn narrow_board_clears_stacked_rows() {
    // A 4-wide board: one I piece fills a whole row per lock.
    let mut board = Board::new(4, 6);
    for y in [5, 4] {
        let mut t = Tetromino::i();
        t.position = Point { x: 0, y };
        board.lock(&t);
    }
    board.cells[3 * 4 + 2] = Cell::Occupied(Color { red: 8, green: 8, blue: 8 });
    board.clear_lines();
    assert_eq!(board.cell(2, 5), Cell::Occupied(Color { red: 8, green: 8, blue: 8 }));
    for y in 0..6 {
        for x in 0..4 {
            if (x, y) != (2, 5) {
                assert_eq!(board.cell(x, y), Cell::Empty);
            }
        }
    }
}

#[test]
fn single_cell_board_clears() {
    let mut board = Board::new(1, 1);
    board.cells[0] = Cell::Occupied(Color { red: 2, green: 2, blue: 2 });
    board.clear_lines();
    assert_eq!(board.cell(0, 0), Cell::Empty);
}
