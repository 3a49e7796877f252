use tetris_core::piece::PieceKind;
use tetris_core::sequencer::PieceSequencer;

fn kind_index(k: PieceKind) -> usize {
    match k {
        PieceKind::I => 0,
        PieceKind::J => 1,
        PieceKind::L => 2,
        PieceKind::O => 3,
        PieceKind::S => 4,
        PieceKind::T => 5,
        PieceKind::Z => 6,
    }
}

fn draw(s: &mut PieceSequencer, n: usize) -> Vec<PieceKind> {
    let mut drawn = Vec::new();
    for _ in 0..n {
        drawn.push(s.advance());
    }
    drawn
}

fn counts(kinds: &[PieceKind]) -> [usize; 7] {
    let mut c = [0usize; 7];
    for &k in kinds {
        c[kind_index(k)] += 1;
    }
    c
}

#[test]
fn seven_draws_return_each_kind_once() {
    let mut s = PieceSequencer::new();
    let drawn = draw(&mut s, 7);
    assert_eq!(counts(&drawn), [1; 7]);
}

#[test]
fn fourteen_draws_return_two_bags() {
    let mut s = PieceSequencer::new();
    let drawn = draw(&mut s, 14);
    assert_eq!(counts(&drawn[..7]), [1; 7]);
    assert_eq!(counts(&drawn[7..]), [1; 7]);
}

#[test]
fn seventy_draws_return_ten_bags() {
    // The bag guarantee holds across every refill, so no kind is
    // ever more than twelve draws from its next appearance.
    let mut s = PieceSequencer::new();
    let drawn = draw(&mut s, 70);
    for bag in drawn.chunks(7) {
        assert_eq!(counts(bag), [1; 7]);
    }
}

#[test]
fn peek_matches_later_draws() {
    let mut s = PieceSequencer::new();
    let ahead: Vec<PieceKind> = (0..10).map(|i| s.peek(i)).collect();
    let drawn = draw(&mut s, 10);
    assert_eq!(ahead, drawn);
}

#[test]
fn peek_spans_into_the_buffered_bag() {
    let mut s = PieceSequencer::new();
    draw(&mut s, 6); // cursor now at the last slot of the bag
    let across = s.peek(1); // first slot of the buffered bag
    draw(&mut s, 1); // consumes the last slot and swaps bags
    assert_eq!(s.peek(0), across);
}

#[test]
fn peek_does_not_consume() {
    let s = PieceSequencer::new();
    let a = s.peek(0);
    let b = s.peek(0);
    assert_eq!(a, b);
}
