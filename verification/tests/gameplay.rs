use tetris_core::board::{Board, Cell};
use tetris_core::game::{Game, InputState};
use tetris_core::geometry::Point;
use tetris_core::piece::{Color, Tetromino};
use tetris_core::sequencer::PieceSequencer;

fn no_input() -> InputState {
    InputState { left: false, right: false, soft_drop: false, rotate: false, hard_drop: false }
}

fn game_with(piece: Tetromino) -> Game {
    Game {
        board: Board::new(10, 20),
        active_piece: piece,
        input_timer: 0,
        tick_timer: 0,
        sequencer: PieceSequencer::new(),
    }
}

fn piece_at(mut t: Tetromino, x: i32, y: i32) -> Tetromino {
    t.position = Point { x, y };
    t
}

#[test]
fn new_game_starts_clean() {
    let game = Game::new();
    assert_eq!(game.board.width, 10);
    assert_eq!(game.board.height, 20);
    for y in 0..20 {
        for x in 0..10 {
            assert_eq!(game.board.cell(x, y), Cell::Empty);
        }
    }
    assert_eq!(game.input_timer, 0);
    assert_eq!(game.tick_timer, 0);
    assert_eq!(game.active_piece.position, Point { x: 0, y: 0 });
}

#[test]
fn o_piece_stops_at_the_left_wall() {
    // Spawned on an empty board the O piece collides with nothing;
    // pushing it left one column at a time is rejected as soon as
    // its left edge reaches column 0.
    let board = Board::new(10, 20);
    let mut t = piece_at(Tetromino::o(), 4, 0);
    assert!(!board.check_collision(&t));
    for _ in 0..15 {
        let previous = t.position;
        t.position.x -= 1;
        if board.check_collision(&t) {
            t.position = previous;
        }
    }
    assert_eq!(t.position.x, 0);
    assert!(!board.check_collision(&t));
}

#[test]
fn drop_position_on_empty_board() {
    let game = game_with(piece_at(Tetromino::i(), 0, 0));
    let p = game.get_drop_position(&game.active_piece);
    assert_eq!(p, Point { x: 0, y: 19 });

    let game = game_with(piece_at(Tetromino::o(), 4, 0));
    let p = game.get_drop_position(&game.active_piece);
    assert_eq!(p, Point { x: 4, y: 18 });
}

#[test]
fn drop_position_lands_on_the_stack() {
    let mut game = game_with(piece_at(Tetromino::i(), 1, 0));
    let support = piece_at(Tetromino::i(), 0, 19);
    game.board.lock(&support);
    let p = game.get_drop_position(&game.active_piece);
    assert_eq!(p, Point { x: 1, y: 18 });
}

#[test]
fn drop_position_of_blocked_piece_is_its_own() {
    let mut game = game_with(piece_at(Tetromino::o(), 4, 18));
    game.board.cells[19 * 10 + 4] = Cell::Occupied(Color { red: 1, green: 1, blue: 1 });
    let p = game.get_drop_position(&game.active_piece);
    assert_eq!(p, Point { x: 4, y: 18 });
}

#[test]
fn gravity_moves_the_piece_down_after_the_tick_delay() {
    let mut game = game_with(piece_at(Tetromino::o(), 4, 0));
    game.update(600, no_input());
    assert_eq!(game.active_piece.position, Point { x: 4, y: 1 });
    assert_eq!(game.tick_timer, 0);
}

#[test]
fn gravity_waits_below_the_tick_delay() {
    let mut game = game_with(piece_at(Tetromino::o(), 4, 0));
    game.update(300, no_input());
    assert_eq!(game.active_piece.position, Point { x: 4, y: 0 });
    assert_eq!(game.tick_timer, 300);
    game.update(300, no_input());
    assert_eq!(game.active_piece.position, Point { x: 4, y: 1 });
    assert_eq!(game.tick_timer, 0);
}

#[test]
fn soft_drop_uses_the_faster_tick() {
    let soft = InputState { soft_drop: true, ..no_input() };
    let mut game = game_with(piece_at(Tetromino::o(), 4, 0));
    game.update(300, soft);
    assert_eq!(game.active_piece.position, Point { x: 4, y: 1 });
}

#[test]
fn held_direction_moves_after_the_repeat_delay() {
    let left = InputState { left: true, ..no_input() };
    let mut game = game_with(piece_at(Tetromino::o(), 4, 0));
    game.update(150, left);
    assert_eq!(game.active_piece.position.x, 3);
    assert_eq!(game.input_timer, 0);
    game.update(50, left);
    assert_eq!(game.active_piece.position.x, 3); // repeat delay not yet reached
}

#[test]
fn opposite_directions_cancel() {
    let both = InputState { left: true, right: true, ..no_input() };
    let mut game = game_with(piece_at(Tetromino::o(), 4, 0));
    game.update(150, both);
    assert_eq!(game.active_piece.position.x, 4);
}

#[test]
fn wall_blocks_the_held_direction() {
    let left = InputState { left: true, ..no_input() };
    let mut game = game_with(piece_at(Tetromino::o(), 0, 5));
    game.update(150, left);
    assert_eq!(game.active_piece.position, Point { x: 0, y: 5 });
}

#[test]
fn rotate_intent_rotates_in_place() {
    let rotate = InputState { rotate: true, ..no_input() };
    let mut game = game_with(piece_at(Tetromino::t(), 4, 10));
    game.update(10, rotate);
    assert_eq!(game.active_piece.position, Point { x: 4, y: 10 });
    assert_eq!(
        game.active_piece.points,
        [
            Point { x: 1, y: 0 },
            Point { x: 1, y: 1 },
            Point { x: 1, y: 2 },
            Point { x: 2, y: 1 },
        ]
    );
    assert_eq!(game.input_timer, 0);
}

#[test]
fn gravity_lock_merges_piece_and_spawns_next() {
    let mut game = game_with(piece_at(Tetromino::o(), 4, 18));
    game.update(600, no_input());
    let color = Tetromino::o().color;
    assert_eq!(game.board.cell(4, 18), Cell::Occupied(color));
    assert_eq!(game.board.cell(5, 18), Cell::Occupied(color));
    assert_eq!(game.board.cell(4, 19), Cell::Occupied(color));
    assert_eq!(game.board.cell(5, 19), Cell::Occupied(color));
    assert_eq!(game.active_piece.position, Point { x: 0, y: 0 });
    assert_eq!(game.tick_timer, 0);
}

#[test]
fn lock_skips_remaining_input_for_the_step() {
    // The gravity lock ends the step: the held direction must not
    // move the freshly spawned piece.
    let left = InputState { left: true, ..no_input() };
    let mut game = game_with(piece_at(Tetromino::o(), 4, 18));
    game.input_timer = 90; // 90 + 600 is far past the repeat delay
    game.update(600, left);
    assert_eq!(game.active_piece.position, Point { x: 0, y: 0 });
}

#[test]
fn hard_drop_locks_at_the_drop_position() {
    let drop = InputState { hard_drop: true, ..no_input() };
    let mut game = game_with(piece_at(Tetromino::o(), 4, 0));
    game.update(10, drop);
    let color = Tetromino::o().color;
    assert_eq!(game.board.cell(4, 18), Cell::Occupied(color));
    assert_eq!(game.board.cell(5, 18), Cell::Occupied(color));
    assert_eq!(game.board.cell(4, 19), Cell::Occupied(color));
    assert_eq!(game.board.cell(5, 19), Cell::Occupied(color));
    assert_eq!(game.active_piece.position, Point { x: 0, y: 0 });
}

#[test]
fn hard_drop_can_complete_and_clear_a_row() {
    // Row 19 is full except columns 4 and 5; dropping the O piece
    // fills them, the row clears, and the O's upper half cascades
    // down to the bottom row.
    let drop = InputState { hard_drop: true, ..no_input() };
    let mut game = game_with(piece_at(Tetromino::o(), 4, 0));
    let filler = Color { red: 3, green: 3, blue: 3 };
    for x in 0..10u32 {
        if x != 4 && x != 5 {
            game.board.cells[19 * 10 + x as usize] = Cell::Occupied(filler);
        }
    }
    game.update(10, drop);
    let color = Tetromino::o().color;
    for y in 0..19 {
        for x in 0..10 {
            assert_eq!(game.board.cell(x, y), Cell::Empty);
        }
    }
    for x in 0..10 {
        if x == 4 || x == 5 {
            assert_eq!(game.board.cell(x, 19), Cell::Occupied(color));
        } else {
            assert_eq!(game.board.cell(x, 19), Cell::Empty);
        }
    }
}

#[test]
fn huge_time_delta_saturates_the_timers() {
    let mut game = game_with(piece_at(Tetromino::o(), 4, 0));
    game.update(u64::MAX, no_input());
    // The gravity tick fired and reset its timer; the input-repeat
    // timer saturated instead of wrapping.
    assert_eq!(game.active_piece.position, Point { x: 4, y: 1 });
    assert_eq!(game.tick_timer, 0);
    assert_eq!(game.input_timer, u64::MAX);
}

#[test]
fn update_draws_pieces_in_sequencer_order() {
    let drop = InputState { hard_drop: true, ..no_input() };
    let mut game = game_with(piece_at(Tetromino::o(), 4, 0));
    let upcoming: Vec<_> = (0..3).map(|i| game.sequencer.peek(i)).collect();
    for &expected in &upcoming {
        game.update(10, drop);
        assert_eq!(game.active_piece.color, Tetromino::from_kind(expected).color);
        assert_eq!(game.active_piece.points, Tetromino::from_kind(expected).points);
    }
}
