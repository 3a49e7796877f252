use tetris_core::board::{Board, Cell};
use tetris_core::geometry::Point;
use tetris_core::piece::{Color, PieceKind, Tetromino};

fn rotate_four_times_restores(mut t: Tetromino) {
    let original = t.points;
    for _ in 0..4 {
        t.rotate_once();
    }
    assert_eq!(t.points, original);
}

#[test]
fn rotation_period_i() {
    rotate_four_times_restores(Tetromino::i());
}

#[test]
fn rotation_period_j() {
    rotate_four_times_restores(Tetromino::j());
}

#[test]
fn rotation_period_l() {
    rotate_four_times_restores(Tetromino::l());
}

#[test]
fn rotation_period_o() {
    rotate_four_times_restores(Tetromino::o());
}

#[test]
fn rotation_period_s() {
    rotate_four_times_restores(Tetromino::s());
}

#[test]
fn rotation_period_t() {
    rotate_four_times_restores(Tetromino::t());
}

#[test]
fn rotation_period_z() {
    rotate_four_times_restores(Tetromino::z());
}

#[test]
fn rotate_once_t_piece_exact() {
    // T spans (0,1),(1,1),(2,1),(1,0) and rotates about (1,1):
    // each (x, y) goes to (2 - y, x).
    let mut t = Tetromino::t();
    t.rotate_once();
    assert_eq!(
        t.points,
        [
            Point { x: 1, y: 0 },
            Point { x: 1, y: 1 },
            Point { x: 1, y: 2 },
            Point { x: 2, y: 1 },
        ]
    );
}

#[test]
fn rotate_once_keeps_o_piece_shape() {
    // O rotates about the centre of its square: the cell set is
    // unchanged, though the cells trade places.
    let mut t = Tetromino::o();
    t.rotate_once();
    let mut cells: Vec<(i32, i32)> = t.points.iter().map(|p| (p.x, p.y)).collect();
    cells.sort();
    assert_eq!(cells, vec![(0, 0), (0, 1), (1, 0), (1, 1)]);
}

#[test]
fn generate_bounds_spawned_i() {
    let t = Tetromino::i();
    let (tl, br) = t.generate_bounds();
    assert_eq!((tl.x, tl.y), (0, 0));
    assert_eq!((br.x, br.y), (3, 0));
}

#[test]
fn generate_bounds_follows_position() {
    let mut t = Tetromino::s();
    t.position = Point { x: 4, y: 7 };
    let (tl, br) = t.generate_bounds();
    assert_eq!((tl.x, tl.y), (4, 7));
    assert_eq!((br.x, br.y), (6, 8));
}

#[test]
fn spawn_layouts_match_reference() {
    let cells = |t: Tetromino| -> Vec<(i32, i32)> {
        t.points.iter().map(|p| (p.x, p.y)).collect()
    };
    assert_eq!(cells(Tetromino::i()), vec![(0, 0), (1, 0), (2, 0), (3, 0)]);
    assert_eq!(cells(Tetromino::j()), vec![(0, 0), (0, 1), (1, 1), (2, 1)]);
    assert_eq!(cells(Tetromino::l()), vec![(0, 1), (1, 1), (2, 1), (2, 0)]);
    assert_eq!(cells(Tetromino::o()), vec![(0, 0), (0, 1), (1, 1), (1, 0)]);
    assert_eq!(cells(Tetromino::s()), vec![(0, 1), (1, 1), (1, 0), (2, 0)]);
    assert_eq!(cells(Tetromino::t()), vec![(0, 1), (1, 1), (2, 1), (1, 0)]);
    assert_eq!(cells(Tetromino::z()), vec![(0, 0), (1, 0), (1, 1), (2, 1)]);
}

#[test]
fn rotate_with_kick_in_open_space() {
    // Far from any wall the rotation simply happens in place.
    let board = Board::new(10, 20);
    let mut t = Tetromino::t();
    t.position = Point { x: 4, y: 5 };
    t.rotate(&board);
    assert_eq!(t.position, Point { x: 4, y: 5 });
    assert_eq!(
        t.points,
        [
            Point { x: 1, y: 0 },
            Point { x: 1, y: 1 },
            Point { x: 1, y: 2 },
            Point { x: 2, y: 1 },
        ]
    );
}

#[test]
fn rotate_with_kick_shifts_off_the_wall() {
    // A vertical I in column 0 (anchor x = -2): rotated in place it
    // would span absolute columns -1..=2 and collide with the left
    // wall, but shifted one column right it spans 0..=3 and fits.
    let board = Board::new(10, 20);
    let mut t = Tetromino::i();
    t.rotate_once(); // vertical: relative cells (2, -2)..(2, 1)
    t.position = Point { x: -2, y: 5 };
    assert!(!board.check_collision(&t));

    t.rotate(&board);
    assert_eq!(t.position, Point { x: -1, y: 5 });
    assert_eq!(
        t.points,
        [
            Point { x: 4, y: 0 },
            Point { x: 3, y: 0 },
            Point { x: 2, y: 0 },
            Point { x: 1, y: 0 },
        ]
    );
}

#[test]
fn rotate_with_kick_reverts_when_blocked() {
    // As above, but an occupied cell blocks the kicked position too:
    // the rotation is discarded entirely.
    let mut board = Board::new(10, 20);
    board.cells[5 * 10 + 1] = Cell::Occupied(Color { red: 1, green: 2, blue: 3 });
    let mut t = Tetromino::i();
    t.rotate_once();
    t.position = Point { x: -2, y: 5 };
    let before = t;
    t.rotate(&board);
    assert_eq!(t.position, before.position);
    assert_eq!(t.points, before.points);
}

#[test]
fn spawn_kinds_are_distinctly_coloured() {
    let pieces = [
        Tetromino::i(),
        Tetromino::j(),
        Tetromino::l(),
        Tetromino::o(),
        Tetromino::s(),
        Tetromino::t(),
        Tetromino::z(),
    ];
    for a in 0..pieces.len() {
        for b in 0..a {
            assert_ne!(pieces[a].color, pieces[b].color);
        }
    }
}

#[test]
fn from_kind_matches_constructors() {
    let t = Tetromino::from_kind(PieceKind::S);
    assert_eq!(t.points, Tetromino::s().points);
    assert_eq!(t.color, Tetromino::s().color);
    assert_eq!(t.position, Point { x: 0, y: 0 });
}

#[test]
fn point_zero_and_plus() {
    let z = Point::zero();
    assert_eq!((z.x, z.y), (0, 0));
    let p = Point { x: 3, y: -2 }.plus(Point { x: -1, y: 7 });
    assert_eq!((p.x, p.y), (2, 5));
}
